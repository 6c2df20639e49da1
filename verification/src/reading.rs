//! What the texts that the library writes say when they are read again.

use vstd::prelude::*;

use crate::clock::{format_compact_duration, format_full_duration, Duration};
use crate::net::{Ipv4Addr, SocketAddr};
use crate::rate;
use crate::rate::seconds_text;
use crate::status::{line_text, status_from_reqwest};
use crate::text;
use crate::text::{
    align_left, align_right, decimal_text, join_lines, lower_text, parse_unsigned, same_text,
    two_digit_text, wide_decimal_text,
};
use crate::units;
use crate::units::human_bytes;

verus! {

/// Whether `digits` is a number in base ten that reads as `value`.
pub open spec fn reads_as(digits: Seq<char>, value: nat) -> bool {
    text::all_digits(digits) && text::number(digits) == value
}

/// Whether a number is written without needless zeros in front.
pub open spec fn is_short(digits: Seq<char>) -> bool {
    digits.len() > 1 ==> digits[0] != '0'
}

/// Whether two characters are the same but for the case of an ASCII letter.
pub open spec fn same_letter(left: char, right: char) -> bool {
    ||| left == right
    ||| 'A' <= left && left <= 'Z' && right as int == left as int + 32
    ||| 'A' <= right && right <= 'Z' && left as int == right as int + 32
}

/// Whether two texts are the same but for the case of their ASCII letters.
pub open spec fn same_but_for_case(left: Seq<char>, right: Seq<char>) -> bool {
    left.len() == right.len() && forall|i: int|
        0 <= i < left.len() ==> same_letter(#[trigger] left[i], right[i])
}

/// Digits are read by their place: one more digit behind a number makes ten times the number and
/// the digit.
pub proof fn digits_are_read_by_place(digits: Seq<char>, value: nat)
    requires
        value < 10,
    ensures
        text::number(seq![]) == 0,
        text::number(digits.push("0123456789"@[value as int])) == 10 * text::number(digits) + value,
        text::is_digit("0123456789"@[value as int]),
{
    reveal_strlit("0123456789");
    let digit = "0123456789"@[value as int];
    assert(digit as int == 48 + value);
    assert(digits.push(digit).drop_last() =~= digits);
}

/// The digits are the ten characters that numbers are written with, and nothing else.
pub proof fn there_are_ten_digits(ch: char)
    ensures
        text::is_digit(ch) == "0123456789"@.contains(ch),
{
    let digits = "0123456789"@;
    reveal_strlit("0123456789");
    if text::is_digit(ch) {
        let at = ch as int - 48;
        assert(digits[at] as int == 48 + at);
        assert(digits[at] == ch);
    }
    if digits.contains(ch) {
        let at = digits.index_of(ch);
        assert(digits[at] as int == 48 + at);
    }
}

/// A number in base ten has no needless zeros in front.
pub(crate) proof fn lemma_decimal_is_short(value: nat)
    ensures
        text::decimal(value).len() > 0,
        is_short(text::decimal(value)),
        value > 0 ==> text::decimal(value)[0] != '0',
    decreases value,
{
    if value >= 10 {
        lemma_decimal_is_short(value / 10);
    }
}

/// A number below a power of ten has no more digits than that.
pub(crate) proof fn lemma_decimal_len(value: nat)
    ensures
        value < 10 ==> text::decimal(value).len() == 1,
        10 <= value < 100 ==> text::decimal(value).len() == 2,
        100 <= value < 1000 ==> text::decimal(value).len() == 3,
{
    reveal_with_fuel(text::decimal, 3);
}

/// There is only one way to write a number without needless zeros.
pub(crate) proof fn lemma_one_decimal(digits: Seq<char>, value: nat)
    requires
        reads_as(digits, value),
        is_short(digits),
    ensures
        digits == text::decimal(value),
    decreases digits.len(),
{
    let last = digits.last();
    assert(text::is_digit(digits[digits.len() - 1]));
    let front = digits.drop_last();
    if digits.len() == 1 {
        assert(front =~= Seq::<char>::empty());
        assert(text::number(front) == 0);
        assert(digits =~= seq![text::digit(value)]);
    } else {
        assert forall|i: int| 0 <= i < front.len() implies text::is_digit(#[trigger] front[i]) by {
            assert(text::is_digit(digits[i]));
        }
        lemma_one_decimal(front, text::number(front));
        if text::number(front) == 0 {
            assert(front =~= seq![text::digit(0)]);
            assert(digits[0] == '0');
        }
        assert(value / 10 == text::number(front));
        assert(digits =~= front.push(last));
        assert(text::digit(value % 10) == last);
    }
}

/// Numbers are written in base ten: what is written reads as the number, without needless zeros.
pub proof fn numbers_are_written_in_base_ten(value: u64, text: String)
    requires
        call_ensures(decimal_text, (value,), text),
    ensures
        reads_as(text@, value as nat),
        is_short(text@),
{
    text::lemma_decimal_number(value as nat);
    lemma_decimal_is_short(value as nat);
}

/// Large numbers are written in base ten too.
pub proof fn large_numbers_are_written_in_base_ten(value: u128, text: String)
    requires
        call_ensures(wide_decimal_text, (value,), text),
    ensures
        reads_as(text@, value as nat),
        is_short(text@),
{
    text::lemma_decimal_number(value as nat);
    lemma_decimal_is_short(value as nat);
}

/// A zero in front does not change what a number reads as.
proof fn lemma_leading_zero(digits: Seq<char>)
    requires
        text::all_digits(digits),
    ensures
        reads_as(seq!['0'] + digits, text::number(digits)),
    decreases digits.len(),
{
    let longer = seq!['0'] + digits;
    assert forall|i: int| 0 <= i < longer.len() implies text::is_digit(#[trigger] longer[i]) by {
        if i > 0 {
            assert(text::is_digit(digits[i - 1]));
        }
    }
    reveal_with_fuel(text::number, 3);
    if digits.len() > 1 {
        let front = digits.drop_last();
        assert forall|i: int| 0 <= i < front.len() implies text::is_digit(#[trigger] front[i]) by {
            assert(text::is_digit(digits[i]));
        }
        lemma_leading_zero(front);
        assert(longer.drop_last() =~= seq!['0'] + front);
        assert(longer.last() == digits.last());
    } else {
        assert(longer.drop_last() =~= seq!['0']);
        assert(seq!['0'].drop_last() =~= Seq::<char>::empty());
        assert(digits.drop_last() =~= Seq::<char>::empty());
    }
}

/// A number with two digits reads as the number.
pub(crate) proof fn lemma_two_digits(value: nat)
    ensures
        reads_as(text::two_digits(value), value),
        text::two_digits(value).len() >= 2,
        value < 100 ==> text::two_digits(value).len() == 2,
        text::two_digits(value).len() > 2 ==> text::two_digits(value)[0] != '0',
{
    text::lemma_decimal_number(value);
    lemma_decimal_is_short(value);
    lemma_decimal_len(value);
    if value < 10 {
        lemma_leading_zero(text::decimal(value));
        assert(seq!['0'].add(text::decimal(value)) =~= seq!['0'] + text::decimal(value));
    } else {
        reveal_with_fuel(text::decimal, 2);
        lemma_decimal_is_short(value / 10);
    }
}

/// Numbers of minutes and seconds are written with at least two digits, and read as what they are.
pub proof fn short_numbers_have_two_digits(value: u64, text: String)
    requires
        call_ensures(two_digit_text, (value,), text),
    ensures
        reads_as(text@, value as nat),
        text@.len() >= 2,
        value < 100 ==> text@.len() == 2,
        text@.len() > 2 ==> text@[0] != '0',
{
    lemma_two_digits(value as nat);
}

/// A text is read as a number where it consists of digits, with or without one plus sign in front,
/// and the number has 64 bits. Nothing else is a number.
pub proof fn only_numbers_are_read(value: &str, parsed: Option<u64>, number: u64)
    requires
        call_ensures(parse_unsigned, (value,), parsed),
    ensures
        parsed == Some(number) <==> (reads_as(value@, number as nat) || value@.len() > 0 && value@[0]
            == '+' && reads_as(value@.skip(1), number as nat)),
{
    if value@.len() > 0 && value@[0] == '+' {
        if text::all_digits(value@) {
            assert(text::is_digit(value@[0]));
        }
    }
}

/// Writing a number and reading it back gives the number.
pub proof fn written_numbers_are_read_back(value: u64, text: String, read: &str, parsed: Option<u64>)
    requires
        call_ensures(decimal_text, (value,), text),
        read@ == text@,
        call_ensures(parse_unsigned, (read,), parsed),
    ensures
        parsed == Some(value),
{
    text::written_number_reads_back(value);
}

/// A text at the left of a column is followed by spaces only, as many as fill the column.
pub proof fn left_columns_are_filled(value: &str, width: usize, text: String)
    requires
        call_ensures(align_left, (value, width), text),
    ensures
        text@.len() >= width && text@.len() >= value@.len(),
        text@.len() == width || text@.len() == value@.len(),
        text@.take(value@.len() as int) == value@,
        forall|i: int| value@.len() <= i < text@.len() ==> text@[i] == ' ',
{
    assert(text@.take(value@.len() as int) =~= value@);
}

/// A text at the right of a column follows spaces only, as many as fill the column.
pub proof fn right_columns_are_filled(value: &str, width: usize, text: String)
    requires
        call_ensures(align_right, (value, width), text),
    ensures
        text@.len() >= width && text@.len() >= value@.len(),
        text@.len() == width || text@.len() == value@.len(),
        text@.skip(text@.len() - value@.len()) == value@,
        forall|i: int| 0 <= i < text@.len() - value@.len() ==> text@[i] == ' ',
{
    assert(text@.skip(text@.len() - value@.len()) =~= value@);
}

/// Lowering a text changes nothing but the case of its letters, and leaves no capital.
pub proof fn lowering_leaves_no_capitals(value: &str, text: String)
    requires
        call_ensures(lower_text, (value,), text),
    ensures
        same_but_for_case(value@, text@),
        forall|i: int| 0 <= i < text@.len() ==> !('A' <= #[trigger] text@[i] && text@[i] <= 'Z'),
{
}

/// The same two texts compare as the same, whichever comes first, and no others do.
pub proof fn texts_are_compared_whole(left: &str, right: &str, same: bool, turned: bool)
    requires
        call_ensures(same_text, (left, right), same),
        call_ensures(same_text, (right, left), turned),
    ensures
        same == turned,
        same <==> left@ =~= right@,
{
}

/// Two texts are lowered alike where they are the same but for case, and only there.
pub(crate) proof fn lemma_lower_is_case(left: Seq<char>, right: Seq<char>)
    ensures
        same_but_for_case(left, right) == (text::lower(left) == text::lower(right)),
{
    let one = text::lower(left);
    let other = text::lower(right);
    if same_but_for_case(left, right) {
        assert(one =~= other);
    }
    if one == other {
        assert(one.len() == left.len() && other.len() == right.len());
        assert forall|i: int| 0 <= i < left.len() implies same_letter(
            #[trigger] left[i],
            right[i],
        ) by {
            assert(one[i] == text::lower_char(left[i]));
            assert(other[i] == text::lower_char(right[i]));
        }
    }
}

/// Lines are put below each other: with one more line the text has a line feed and that line
/// behind it, and a single line stands as it is.
pub proof fn lines_stand_below_each_other(
    lines: &Vec<String>,
    last: String,
    longer: &Vec<String>,
    text: String,
    longer_text: String,
)
    requires
        longer@ == lines@.push(last),
        call_ensures(join_lines, (lines,), text),
        call_ensures(join_lines, (longer,), longer_text),
    ensures
        lines@.len() == 0 ==> text@ == Seq::<char>::empty() && longer_text@ == last@,
        lines@.len() > 0 ==> longer_text@ == text@ + seq!['\n'] + last@,
{
    assert(text::texts(longer@) =~= text::texts(lines@).push(last@));
    assert(text::texts(longer@).drop_last() =~= text::texts(lines@));
}

/// Whether a text tells hours, minutes and seconds by the clock.
pub open spec fn tells(text: Seq<char>, hours: Seq<char>, minutes: Seq<char>, seconds: Seq<char>) -> bool {
    text == hours + ":"@ + minutes + ":"@ + seconds
}

/// Whether the parts of a time by the clock make up a number of seconds.
pub open spec fn make_up(
    hours: Seq<char>,
    minutes: Seq<char>,
    seconds: Seq<char>,
    total: nat,
) -> bool {
    &&& text::all_digits(hours) && text::all_digits(minutes) && text::all_digits(seconds)
    &&& minutes.len() == 2 && seconds.len() == 2
    &&& text::number(minutes) < 60 && text::number(seconds) < 60
    &&& text::number(hours) * 3600 + text::number(minutes) * 60 + text::number(seconds) == total
}

/// The running time is told in hours, minutes and seconds that make it up, whole seconds only.
pub proof fn full_times_add_up(duration: Duration, text: String)
    requires
        call_ensures(format_full_duration, (duration,), text),
    ensures
        exists|hours: Seq<char>, minutes: Seq<char>, seconds: Seq<char>| #[trigger]
            tells(text@, hours, minutes, seconds) && hours.len() >= 2 && make_up(
                hours,
                minutes,
                seconds,
                duration@ / 1_000_000_000,
            ),
{
    let total = duration@ / 1_000_000_000;
    let hours = text::two_digits(total / 3600);
    let minutes = text::two_digits(total % 3600 / 60);
    let seconds = text::two_digits(total % 60);
    lemma_two_digits(total / 3600);
    lemma_two_digits(total % 3600 / 60);
    lemma_two_digits(total % 60);
    assert(text@ =~= hours + ":"@ + minutes + ":"@ + seconds);
    assert(tells(text@, hours, minutes, seconds));
}

/// Ages are told in minutes and seconds, with hours only where there is a whole one.
pub proof fn short_times_add_up(duration: Duration, text: String)
    requires
        call_ensures(format_compact_duration, (duration,), text),
    ensures
        duration@ < 3_600_000_000_000 ==> exists|minutes: Seq<char>, seconds: Seq<char>|
            text@ == #[trigger] (minutes + ":"@ + seconds) && make_up(
                seq!['0'],
                minutes,
                seconds,
                duration@ / 1_000_000_000,
            ),
        duration@ >= 3_600_000_000_000 ==> exists|
            hours: Seq<char>,
            minutes: Seq<char>,
            seconds: Seq<char>,
        | #[trigger]
            tells(text@, hours, minutes, seconds) && hours.len() >= 2 && make_up(
                hours,
                minutes,
                seconds,
                duration@ / 1_000_000_000,
            ),
{
    let total = duration@ / 1_000_000_000;
    let hours = text::two_digits(total / 3600);
    let minutes = text::two_digits(total % 3600 / 60);
    let seconds = text::two_digits(total % 60);
    lemma_two_digits(total / 3600);
    lemma_two_digits(total % 3600 / 60);
    lemma_two_digits(total % 60);
    if total < 3600 {
        assert(text::number(seq!['0']) == 0) by {
            reveal_with_fuel(text::number, 2);
            assert(seq!['0'].drop_last() =~= Seq::<char>::empty());
        }
        assert(text::all_digits(seq!['0']));
        assert(text@ == minutes + ":"@ + seconds);
        assert(make_up(seq!['0'], minutes, seconds, total));
    } else {
        assert(text@ =~= hours + ":"@ + minutes + ":"@ + seconds);
        assert(tells(text@, hours, minutes, seconds));
    }
}

/// What lies between two readings of a clock, added to the earlier one, gives the later one, and
/// where no time has passed nothing lies between them.
pub proof fn time_between_readings_adds_up(
    now: &Duration,
    since: &Duration,
    between: Duration,
    later: bool,
)
    requires
        call_ensures(Duration::since, (now, since), between),
        call_ensures(Duration::exceeds, (now, since), later),
    ensures
        later ==> since@ + between@ == now@ && between@ > 0,
        !later ==> now@ <= since@ && between@ == 0,
{
}

/// Seconds and nanoseconds of a length of time make it up.
pub proof fn seconds_and_nanoseconds_make_up_a_time(
    duration: &Duration,
    secs: u64,
    nanos: u32,
    again: Duration,
    whole: Duration,
)
    requires
        call_ensures(Duration::as_secs, (duration,), secs),
        call_ensures(Duration::subsec_nanos, (duration,), nanos),
        call_ensures(Duration::new, (secs, nanos), again),
        call_ensures(Duration::from_secs, (secs,), whole),
    ensures
        duration@ == secs * 1_000_000_000 + nanos,
        nanos < 1_000_000_000,
        again@ == duration@,
        whole@ + nanos == duration@,
{
    vstd::arithmetic::div_mod::lemma_fundamental_div_mod(duration@ as int, 1_000_000_000);
}

/// Whether a text is made of four parts with dots between them.
pub open spec fn is_quad(
    text: Seq<char>,
    a: Seq<char>,
    b: Seq<char>,
    c: Seq<char>,
    d: Seq<char>,
) -> bool {
    text == a + "."@ + b + "."@ + c + "."@ + d
}

/// Whether a text is the address with the given bytes: each in base ten, with dots between them.
pub open spec fn names_address(text: Seq<char>, octets: Seq<u8>) -> bool {
    exists|a: Seq<char>, b: Seq<char>, c: Seq<char>, d: Seq<char>| #[trigger]
        is_quad(text, a, b, c, d) && reads_as(a, octets[0] as nat) && reads_as(b, octets[1] as nat)
            && reads_as(c, octets[2] as nat) && reads_as(d, octets[3] as nat) && is_short(a)
            && is_short(b) && is_short(c) && is_short(d)
}

/// The dotted form of an address names it.
pub(crate) proof fn lemma_dotted(ip: Ipv4Addr)
    ensures
        names_address(ip.dotted(), ip.octets@),
        7 <= ip.dotted().len() <= 15,
{
    let octets = ip.octets@;
    let a = text::decimal(octets[0] as nat);
    let b = text::decimal(octets[1] as nat);
    let c = text::decimal(octets[2] as nat);
    let d = text::decimal(octets[3] as nat);
    text::lemma_decimal_number(octets[0] as nat);
    text::lemma_decimal_number(octets[1] as nat);
    text::lemma_decimal_number(octets[2] as nat);
    text::lemma_decimal_number(octets[3] as nat);
    lemma_decimal_is_short(octets[0] as nat);
    lemma_decimal_is_short(octets[1] as nat);
    lemma_decimal_is_short(octets[2] as nat);
    lemma_decimal_is_short(octets[3] as nat);
    lemma_decimal_len(octets[0] as nat);
    lemma_decimal_len(octets[1] as nat);
    lemma_decimal_len(octets[2] as nat);
    lemma_decimal_len(octets[3] as nat);
    reveal_strlit(".");
    assert(is_quad(ip.dotted(), a, b, c, d));
}

/// Addresses are written as their four bytes in order, in base ten, with dots between them.
pub proof fn addresses_are_written_byte_by_byte(ip: &Ipv4Addr, text: String)
    requires
        call_ensures(Ipv4Addr::to_text, (ip,), text),
    ensures
        names_address(text@, ip.octets@),
{
    lemma_dotted(*ip);
}

/// Whether a text is an address, a colon and a port.
pub open spec fn is_endpoint(text: Seq<char>, address: Seq<char>, port: Seq<char>) -> bool {
    text == address + ":"@ + port
}

/// An IPv4 address with a port is written as the address, a colon and the port in base ten. Any
/// other address is written as it was printed before.
pub proof fn endpoints_are_written_with_their_port(address: &SocketAddr, text: String)
    requires
        call_ensures(SocketAddr::to_text, (address,), text),
    ensures
        match *address {
            SocketAddr::V4 { ip, port } => exists|host: Seq<char>, digits: Seq<char>| #[trigger]
                is_endpoint(text@, host, digits) && names_address(host, ip.octets@) && reads_as(
                    digits,
                    port as nat,
                ) && is_short(digits),
            SocketAddr::V6 { printed, .. } => text@ == printed@,
        },
{
    if let SocketAddr::V4 { ip, port } = *address {
        lemma_dotted(ip);
        text::lemma_decimal_number(port as nat);
        lemma_decimal_is_short(port as nat);
        assert(is_endpoint(text@, ip.dotted(), text::decimal(port as nat)));
    }
}

/// An address belongs to the host itself where its first byte is 127, whatever the others are, and
/// a copy of an address is no other address.
pub proof fn loopback_is_the_first_byte(
    address: &SocketAddr,
    loopback: bool,
    v4: bool,
    copy: SocketAddr,
)
    requires
        call_ensures(SocketAddr::is_loopback, (address,), loopback),
        call_ensures(SocketAddr::is_ipv4, (address,), v4),
        call_ensures(SocketAddr::duplicate, (address,), copy),
    ensures
        copy == *address,
        match *address {
            SocketAddr::V4 { ip, .. } => v4 && loopback == (ip.octets@[0] == 127),
            SocketAddr::V6 { loopback: told, .. } => !v4 && loopback == told,
        },
{
}

/// Whether a text is an amount with two decimals: its digits before and behind the point, and its
/// unit.
pub open spec fn is_amount(
    text: Seq<char>,
    whole: Seq<char>,
    hundredths: Seq<char>,
    unit: Seq<char>,
) -> bool {
    text == whole + "."@ + hundredths + " "@ + unit
}

/// Whether a text says `bytes` in units of `size` bytes, with two decimals, off by at most half a
/// hundredth, and beyond 2^53 bytes by what the bytes themselves are rounded by.
pub open spec fn says_amount(text: Seq<char>, bytes: u64, size: int, unit: Seq<char>) -> bool {
    exists|whole: Seq<char>, hundredths: Seq<char>| #[trigger]
        is_amount(text, whole, hundredths, unit) && text::all_digits(whole) && is_short(whole)
            && text::all_digits(hundredths) && hundredths.len() == 2 && {
            let said = (100 * text::number(whole) + text::number(hundredths)) * size;
            let slack = if bytes < 0x20_0000_0000_0000 {
                0int
            } else {
                204_800int
            };
            -size - slack <= 2 * (said - 100 * bytes) <= size + slack
        }
}

/// An amount of data is told in bytes below 1024, in kilobytes below 1024 of those, in megabytes
/// below 1024 of those, and in gigabytes from there on, to two decimals.
pub proof fn amounts_are_told_in_their_unit(bytes: u64, text: String)
    requires
        call_ensures(human_bytes, (bytes,), text),
    ensures
        bytes < 1024 ==> exists|digits: Seq<char>|
            text@ == #[trigger] (digits + " "@ + "B"@) && reads_as(digits, bytes as nat) && is_short(
                digits,
            ),
        1024 <= bytes < 1_048_576 ==> says_amount(text@, bytes, 1024, "KB"@),
        1_048_576 <= bytes < 1_073_741_824 ==> says_amount(text@, bytes, 1_048_576, "MB"@),
        1_073_741_824 <= bytes ==> says_amount(text@, bytes, 1_073_741_824, "GB"@),
{
    if bytes < 1024 {
        text::lemma_decimal_number(bytes as nat);
        lemma_decimal_is_short(bytes as nat);
        assert(text@ == text::decimal(bytes as nat) + " "@ + "B"@);
    } else {
        let size = units::unit_size(bytes);
        let grain = units::grain(bytes as nat);
        let double = units::as_double(bytes);
        let total = units::nearest(double * 100, size);
        let whole = text::decimal(total / 100);
        let hundredths = text::two_digits(total % 100);
        text::lemma_decimal_number(total / 100);
        lemma_decimal_is_short(total / 100);
        lemma_two_digits(total % 100);
        units::lemma_grain_bound(bytes as nat);
        units::lemma_nearest_is_near(bytes as nat, grain);
        units::lemma_nearest_is_near(double * 100, size);
        if bytes < 0x20_0000_0000_0000 {
            units::shown_amount_is_near(bytes);
        }
        assert(is_amount(text@, whole, hundredths, units::unit_name(bytes)));
        assert(100 * text::number(whole) + text::number(hundredths) == total);
    }
}

/// Whether a line is a number with something behind it.
pub open spec fn is_numbered(line: Seq<char>, digits: Seq<char>, rest: Seq<char>) -> bool {
    line == digits + " "@ + rest
}

/// Whether a line is a status code in base ten with something behind it.
pub open spec fn names_code(line: Seq<char>, code: u16, rest: Seq<char>) -> bool {
    exists|digits: Seq<char>| #[trigger]
        is_numbered(line, digits, rest) && reads_as(digits, code as nat) && is_short(digits)
}

/// A status code is written in base ten in front of its phrase, and one without a phrase is said to
/// be unknown.
pub proof fn status_lines_begin_with_the_code(code: u16, phrase: Option<String>, line: String)
    requires
        call_ensures(line_text, (code, phrase), line),
    ensures
        names_code(
            line@,
            code,
            match phrase {
                Some(phrase) => phrase@,
                None => "<unknown status code>"@,
            },
        ),
{
    let rest = match phrase {
        Some(phrase) => phrase@,
        None => "<unknown status code>"@,
    };
    text::lemma_decimal_number(code as nat);
    lemma_decimal_is_short(code as nat);
    assert(is_numbered(line@, text::decimal(code as nat), rest));
}

/// The status of a server is answered as it is, but for what is no status code of three digits:
/// that is answered as a failure of the server.
pub proof fn status_codes_are_passed_back(status: u16, code: u16)
    requires
        call_ensures(status_from_reqwest, (status,), code),
    ensures
        100 <= status <= 999 ==> code == status,
        status < 100 || status > 999 ==> code == 502,
{
}

/// Whether a text is a number with two decimals.
pub open spec fn is_decimal(text: Seq<char>, whole: Seq<char>, hundredths: Seq<char>) -> bool {
    text == whole + "."@ + hundredths
}

/// How long something took is told in seconds with two decimals, off by less than a hundredth of a
/// second.
pub proof fn times_are_told_in_hundredths(duration: &Duration, text: String)
    requires
        call_ensures(seconds_text, (duration,), text),
        duration@ < 0x100_0000_0000 * 1_000_000_000,
    ensures
        exists|whole: Seq<char>, hundredths: Seq<char>| #[trigger]
            is_decimal(text@, whole, hundredths) && text::all_digits(whole) && is_short(whole)
                && text::all_digits(hundredths) && hundredths.len() == 2 && -10_000_000 < (100
                * text::number(whole) + text::number(hundredths)) * 10_000_000 - duration@
                < 10_000_000,
{
    let total = units::nearest(
        rate::scaled_seconds(duration@) * 100,
        rate::seconds_scale(duration@),
    );
    rate::lemma_hundredths_are_near(duration@);
    text::lemma_decimal_number(total / 100);
    lemma_decimal_is_short(total / 100);
    lemma_two_digits(total % 100);
    let whole = text::decimal(total / 100);
    let hundredths = text::two_digits(total % 100);
    assert(is_decimal(text@, whole, hundredths));
    assert(100 * text::number(whole) + text::number(hundredths) == total);
}

/// An address is made of the bytes that it is given, in their order.
pub proof fn addresses_keep_their_bytes(a: u8, b: u8, c: u8, d: u8, ip: Ipv4Addr)
    requires
        call_ensures(Ipv4Addr::new, (a, b, c, d), ip),
    ensures
        ip.octets@[0] == a,
        ip.octets@[1] == b,
        ip.octets@[2] == c,
        ip.octets@[3] == d,
{
}

} // verus!

//! Building and reading the small pieces of text that the proxy prints and parses.

use vstd::prelude::*;

verus! {

/// `String::push` appends one character to the end of the string and changes nothing else.
pub assume_specification[ String::push ](string: &mut String, ch: char)
    ensures
        final(string)@ == old(string)@.push(ch),
;

/// The decimal digit that stands for `value`, for a value below ten.
pub open spec fn digit(value: nat) -> char {
    (48 + value) as char
}

/// `value` written in base ten, without leading zeros.
pub open spec fn decimal(value: nat) -> Seq<char>
    decreases value,
{
    if value < 10 {
        seq![digit(value)]
    } else {
        decimal(value / 10).push(digit(value % 10))
    }
}

/// `value` in base ten, with a leading zero where it has only one digit.
pub open spec fn two_digits(value: nat) -> Seq<char> {
    if value < 10 {
        seq!['0'].add(decimal(value))
    } else {
        decimal(value)
    }
}

/// A run of `count` spaces.
pub open spec fn spaces(count: nat) -> Seq<char> {
    Seq::new(count, |i: int| ' ')
}

/// How many spaces bring a text of `len` characters up to `width`.
pub open spec fn missing(len: nat, width: nat) -> nat {
    if len < width {
        (width - len) as nat
    } else {
        0
    }
}

/// `text` at the left of a column of `width` characters. Longer text is kept whole.
pub open spec fn left_aligned(text: Seq<char>, width: nat) -> Seq<char> {
    text + spaces(missing(text.len(), width))
}

/// `text` at the right of a column of `width` characters. Longer text is kept whole.
pub open spec fn right_aligned(text: Seq<char>, width: nat) -> Seq<char> {
    spaces(missing(text.len(), width)) + text
}

/// The lower case form of an ASCII letter. Every other character stays as it is.
pub open spec fn lower_char(ch: char) -> char {
    if 'A' <= ch && ch <= 'Z' {
        (ch as u32 + 32) as char
    } else {
        ch
    }
}

/// `text` with its ASCII letters in lower case.
pub open spec fn lower(text: Seq<char>) -> Seq<char> {
    text.map_values(|ch: char| lower_char(ch))
}

/// Whether `ch` is one of the ten decimal digits.
pub open spec fn is_digit(ch: char) -> bool {
    '0' <= ch && ch <= '9'
}

/// The number that a text of decimal digits stands for.
pub open spec fn number(digits: Seq<char>) -> nat
    decreases digits.len(),
{
    if digits.len() == 0 {
        0
    } else {
        number(digits.drop_last()) * 10 + (digits.last() as nat - 48) as nat
    }
}

/// Whether `text` is at least one character long and holds decimal digits only.
pub open spec fn all_digits(text: Seq<char>) -> bool {
    text.len() > 0 && forall|i: int| 0 <= i < text.len() ==> is_digit(#[trigger] text[i])
}

/// `text` without one leading plus sign.
pub open spec fn without_plus(text: Seq<char>) -> Seq<char> {
    if text.len() > 0 && text[0] == '+' {
        text.skip(1)
    } else {
        text
    }
}

/// The 64-bit number that `text` denotes: an optional plus sign followed by decimal digits
/// whose value fits.
pub open spec fn unsigned(text: Seq<char>) -> Option<u64> {
    let digits = without_plus(text);
    if all_digits(digits) && number(digits) <= u64::MAX {
        Some(number(digits) as u64)
    } else {
        None
    }
}

/// The lines in order, with a line feed between each and the next.
pub open spec fn joined(lines: Seq<Seq<char>>) -> Seq<char>
    decreases lines.len(),
{
    if lines.len() == 0 {
        seq![]
    } else if lines.len() == 1 {
        lines[0]
    } else {
        joined(lines.drop_last()) + seq!['\n'] + lines.last()
    }
}

/// The texts of a list of strings.
pub open spec fn texts(lines: Seq<String>) -> Seq<Seq<char>> {
    lines.map_values(|line: String| line@)
}

/// The character for a decimal digit.
fn digit_char(value: u128) -> (ch: char)
    requires
        value < 10,
    ensures
        ch == digit(value as nat),
{
    match value {
        0 => '0',
        1 => '1',
        2 => '2',
        3 => '3',
        4 => '4',
        5 => '5',
        6 => '6',
        7 => '7',
        8 => '8',
        _ => '9',
    }
}

/// Writes `value` in base ten.
pub fn decimal_text(value: u64) -> (text: String)
    ensures
        text@ == decimal(value as nat),
{
    wide_decimal_text(value as u128)
}

/// Writes a 128-bit number in base ten.
pub fn wide_decimal_text(value: u128) -> (text: String)
    ensures
        text@ == decimal(value as nat),
    decreases value,
{
    if value < 10 {
        let mut text = String::new();
        text.push(digit_char(value));
        assert(text@ =~= seq![digit(value as nat)]);
        text
    } else {
        let mut text = wide_decimal_text(value / 10);
        text.push(digit_char(value % 10));
        text
    }
}

/// Writes `value` in base ten with at least two digits.
pub fn two_digit_text(value: u64) -> (text: String)
    ensures
        text@ == two_digits(value as nat),
{
    let number = decimal_text(value);
    if value < 10 {
        let mut text = String::new();
        text.push('0');
        assert(text@ =~= seq!['0']);
        text.append(number.as_str());
        text
    } else {
        number
    }
}

/// Appends `count` spaces to `text`.
fn push_spaces(text: &mut String, count: usize)
    ensures
        final(text)@ == old(text)@ + spaces(count as nat),
{
    let mut done: usize = 0;
    assert(text@ =~= old(text)@ + spaces(0));
    while done < count
        invariant
            done <= count,
            text@ == old(text)@ + spaces(done as nat),
        decreases count - done,
    {
        text.push(' ');
        done = done + 1;
        assert(text@ =~= old(text)@ + spaces(done as nat));
    }
}

/// Puts `value` at the left of a column of `width` characters.
pub fn align_left(value: &str, width: usize) -> (text: String)
    ensures
        text@ == left_aligned(value@, width as nat),
{
    let len: usize = value.unicode_len();
    let mut text = value.to_owned();
    push_spaces(&mut text, if len < width { width - len } else { 0 });
    text
}

/// Puts `value` at the right of a column of `width` characters.
pub fn align_right(value: &str, width: usize) -> (text: String)
    ensures
        text@ == right_aligned(value@, width as nat),
{
    let len: usize = value.unicode_len();
    let mut text = String::new();
    push_spaces(&mut text, if len < width { width - len } else { 0 });
    assert(text@ =~= spaces(missing(value@.len(), width as nat)));
    text.append(value);
    text
}

/// Whether two texts are the same, character for character.
pub fn same_text(left: &str, right: &str) -> (same: bool)
    ensures
        same == (left@ == right@),
{
    left.to_owned() == right.to_owned()
}

/// Writes the ASCII letters of `value` in lower case.
pub fn lower_text(value: &str) -> (text: String)
    ensures
        text@ == lower(value@),
{
    let mut text = String::new();
    for ch in chars: value.chars()
        invariant
            chars.seq() == value@,
            text@ == lower(value@.take(chars.index())),
    {
        let small = if 'A' <= ch && ch <= 'Z' {
            (ch as u8 + 32) as char
        } else {
            ch
        };
        text.push(small);
        assert(text@ =~= lower(value@.take(chars.index() + 1)));
    }
    assert(value@.take(value@.len() as int) =~= value@);
    text
}

/// A longer run of digits never stands for a smaller number.
proof fn lemma_prefix_number(digits: Seq<char>, len: int)
    requires
        0 <= len <= digits.len(),
    ensures
        number(digits.take(len)) <= number(digits),
    decreases digits.len(),
{
    if len == digits.len() {
        assert(digits.take(len) =~= digits);
    } else {
        lemma_prefix_number(digits.drop_last(), len);
        assert(digits.drop_last().take(len) =~= digits.take(len));
    }
}

/// Reads an unsigned number: an optional plus sign and decimal digits.
pub fn parse_unsigned(value: &str) -> (parsed: Option<u64>)
    ensures
        parsed == unsigned(value@),
{
    let rest = if !value.is_empty() && value.get_char(0) == '+' {
        value.substring_char(1, value.unicode_len())
    } else {
        value
    };
    assert(rest@ =~= without_plus(value@));
    if rest.is_empty() {
        return None;
    }
    let mut total: u64 = 0;
    for ch in chars: rest.chars()
        invariant
            chars.seq() == rest@,
            rest@ == without_plus(value@),
            total == number(rest@.take(chars.index())),
            forall|i: int| 0 <= i < chars.index() ==> is_digit(#[trigger] rest@[i]),
    {
        let ghost at = chars.index();
        assert(rest@.take(at + 1).drop_last() =~= rest@.take(at));
        assert(rest@.take(at + 1).last() == ch);
        if !('0' <= ch && ch <= '9') {
            assert(!is_digit(rest@[at]));
            return None;
        }
        let unit: u64 = ch as u64 - 48;
        if total > (u64::MAX - unit) / 10 {
            proof {
                lemma_prefix_number(rest@, at + 1);
            }
            return None;
        }
        total = total * 10 + unit;
    }
    assert(rest@.take(rest@.len() as int) =~= rest@);
    Some(total)
}

/// Puts the lines one below the other, with a line feed between each and the next.
pub fn join_lines(lines: &Vec<String>) -> (text: String)
    ensures
        text@ == joined(texts(lines@)),
{
    let mut text = String::new();
    let mut done: usize = 0;
    assert(text@ =~= joined(texts(lines@).take(0)));
    while done < lines.len()
        invariant
            done <= lines.len(),
            text@ == joined(texts(lines@).take(done as int)),
        decreases lines.len() - done,
    {
        let ghost before = texts(lines@).take(done as int);
        let ghost after = texts(lines@).take(done + 1);
        assert(after.drop_last() =~= before);
        if done > 0 {
            text.push('\n');
            assert(text@ =~= joined(before) + seq!['\n']);
        }
        text.append(lines[done].as_str());
        assert(after.last() == lines@[done as int]@);
        if done == 0 {
            assert(text@ =~= lines@[0]@);
        }
        done = done + 1;
    }
    assert(texts(lines@).take(lines@.len() as int) =~= texts(lines@));
    text
}

/// The digits of a number, read back, give the number.
pub proof fn lemma_decimal_number(value: nat)
    ensures
        all_digits(decimal(value)),
        number(decimal(value)) == value,
    decreases value,
{
    reveal_with_fuel(number, 2);
    if value < 10 {
        assert(decimal(value).drop_last() =~= Seq::<char>::empty());
        assert(is_digit(decimal(value)[0]));
    } else {
        lemma_decimal_number(value / 10);
        assert(decimal(value).drop_last() =~= decimal(value / 10));
        assert(is_digit(decimal(value).last()));
    }
}

/// Writing a 64-bit number in base ten and reading the text back gives the same number.
pub proof fn written_number_reads_back(value: u64)
    ensures
        unsigned(decimal(value as nat)) == Some(value),
{
    lemma_decimal_number(value as nat);
    assert(is_digit(decimal(value as nat)[0]));
    assert(without_plus(decimal(value as nat)) == decimal(value as nat));
}

/// Two numbers that are written alike are equal.
pub proof fn written_numbers_differ(left: nat, right: nat)
    requires
        decimal(left) == decimal(right),
    ensures
        left == right,
{
    lemma_decimal_number(left);
    lemma_decimal_number(right);
}

} // verus!

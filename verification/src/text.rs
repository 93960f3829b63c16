//! The texts that the relay sends: decimal numbers, byte counts in binary
//! units, connection identifiers, and trimmed chat lines.

use vstd::prelude::*;
use vstd::string::*;

verus! {

/// The character of a decimal digit.
pub open spec fn digit_char(d: int) -> char {
    if d == 0 {
        '0'
    } else if d == 1 {
        '1'
    } else if d == 2 {
        '2'
    } else if d == 3 {
        '3'
    } else if d == 4 {
        '4'
    } else if d == 5 {
        '5'
    } else if d == 6 {
        '6'
    } else if d == 7 {
        '7'
    } else if d == 8 {
        '8'
    } else {
        '9'
    }
}

/// A natural number in decimal, without leading zeros.
pub open spec fn decimal(n: nat) -> Seq<char>
    decreases n,
{
    if n < 10 {
        seq![digit_char(n as int)]
    } else {
        decimal(n / 10).push(digit_char((n % 10) as int))
    }
}

/// An integer in decimal, with a minus sign if it is negative.
pub open spec fn signed_decimal(n: int) -> Seq<char> {
    if n < 0 {
        seq!['-'] + decimal((-n) as nat)
    } else {
        decimal(n as nat)
    }
}

/// The text of one decimal digit.
fn digit_text(d: u64) -> (text: &'static str)
    requires
        d < 10,
    ensures
        text@ == seq![digit_char(d as int)],
{
    proof {
        reveal_strlit("0");
        reveal_strlit("1");
        reveal_strlit("2");
        reveal_strlit("3");
        reveal_strlit("4");
        reveal_strlit("5");
        reveal_strlit("6");
        reveal_strlit("7");
        reveal_strlit("8");
        reveal_strlit("9");
    }
    let text = if d == 0 {
        "0"
    } else if d == 1 {
        "1"
    } else if d == 2 {
        "2"
    } else if d == 3 {
        "3"
    } else if d == 4 {
        "4"
    } else if d == 5 {
        "5"
    } else if d == 6 {
        "6"
    } else if d == 7 {
        "7"
    } else if d == 8 {
        "8"
    } else {
        "9"
    };
    proof {
        assert(text@ =~= seq![digit_char(d as int)]);
    }
    text
}

/// Writes a natural number in decimal.
pub fn decimal_text(n: u64) -> (text: String)
    ensures
        text@ == decimal(n as nat),
    decreases n,
{
    if n < 10 {
        digit_text(n).to_string()
    } else {
        let mut text = decimal_text(n / 10);
        text.append(digit_text(n % 10));
        proof {
            assert(text@ =~= decimal(n as nat));
        }
        text
    }
}

/// Writes a signed number in decimal.
pub fn signed_text(room: i32) -> (text: String)
    ensures
        text@ == signed_decimal(room as int),
{
    if room < 0 {
        proof {
            reveal_strlit("-");
        }
        let mut text = "-".to_string();
        text.append(decimal_text((-(room as i64)) as u64).as_str());
        proof {
            assert(text@ =~= signed_decimal(room as int));
        }
        text
    } else {
        decimal_text(room as u64)
    }
}

/// The bytes in one KiB.
pub const KIB: u64 = 1024;

/// The bytes in one MiB.
pub const MIB: u64 = 1048576;

/// The bytes in one GiB.
pub const GIB: u64 = 1073741824;

/// The bytes in one TiB.
pub const TIB: u64 = 1099511627776;

/// `bytes / unit` in hundredths, rounded to the nearest; a tie goes to the
/// even hundredth.
pub open spec fn hundredths(bytes: nat, unit: nat) -> nat {
    let whole = bytes * 100 / unit;
    let rest = bytes * 100 % unit;
    if 2 * rest > unit || (2 * rest == unit && whole % 2 == 1) {
        whole + 1
    } else {
        whole
    }
}

/// A number of hundredths with two decimals.
pub open spec fn two_decimals(h: nat) -> Seq<char> {
    decimal(h / 100) + seq!['.', digit_char((h / 10 % 10) as int), digit_char((h % 10) as int)]
}

/// A byte count in the largest binary unit that does not exceed it: whole
/// bytes below one KiB, else two decimals of KiB, MiB, GiB or TiB.
pub open spec fn byte_count(bytes: nat) -> Seq<char> {
    if bytes >= TIB {
        two_decimals(hundredths(bytes, TIB as nat)) + " TiB"@
    } else if bytes >= GIB {
        two_decimals(hundredths(bytes, GIB as nat)) + " GiB"@
    } else if bytes >= MIB {
        two_decimals(hundredths(bytes, MIB as nat)) + " MiB"@
    } else if bytes >= KIB {
        two_decimals(hundredths(bytes, KIB as nat)) + " KiB"@
    } else {
        decimal(bytes) + " B"@
    }
}

/// Writes `bytes / unit` with two decimals, then the unit's name.
fn scaled_text(bytes: u64, unit: u64, suffix: &str) -> (text: String)
    requires
        unit >= 1,
    ensures
        text@ == two_decimals(hundredths(bytes as nat, unit as nat)) + suffix@,
{
    let scaled: u128 = bytes as u128 * 100;
    let whole: u128 = scaled / (unit as u128);
    let rest: u128 = scaled % (unit as u128);
    proof {
        assert(scaled / (unit as u128) <= scaled) by (nonlinear_arith)
            requires
                unit >= 1,
                scaled >= 0,
        ;
    }
    let h: u128 = if 2 * rest > unit as u128 || (2 * rest == unit as u128 && whole % 2 == 1) {
        whole + 1
    } else {
        whole
    };
    let mut text = decimal_text((h / 100) as u64);
    proof {
        reveal_strlit(".");
    }
    text.append(".");
    text.append(digit_text((h / 10 % 10) as u64));
    text.append(digit_text((h % 10) as u64));
    text.append(suffix);
    proof {
        assert(text@ =~= two_decimals(h as nat) + suffix@);
    }
    text
}

/// Writes a byte count for people to read.
pub fn format_bytes(bytes: u64) -> (text: String)
    ensures
        text@ == byte_count(bytes as nat),
{
    if bytes >= TIB {
        scaled_text(bytes, TIB, " TiB")
    } else if bytes >= GIB {
        scaled_text(bytes, GIB, " GiB")
    } else if bytes >= MIB {
        scaled_text(bytes, MIB, " MiB")
    } else if bytes >= KIB {
        scaled_text(bytes, KIB, " KiB")
    } else {
        let mut text = decimal_text(bytes);
        text.append(" B");
        text
    }
}

/// The character of a hexadecimal digit, in lower case.
pub open spec fn hex_char(d: int) -> char {
    if d < 10 {
        digit_char(d)
    } else if d == 10 {
        'a'
    } else if d == 11 {
        'b'
    } else if d == 12 {
        'c'
    } else if d == 13 {
        'd'
    } else if d == 14 {
        'e'
    } else {
        'f'
    }
}

/// The `count` lowest hexadecimal digits of `n`, most significant first.
pub open spec fn hex_digits(n: nat, count: nat) -> Seq<char>
    decreases count,
{
    if count == 0 {
        Seq::empty()
    } else {
        hex_digits(n / 16, (count - 1) as nat).push(hex_char((n % 16) as int))
    }
}

/// A connection identifier as text: its 32 hexadecimal digits in groups of
/// 8, 4, 4, 4 and 12, with a hyphen between two groups.
pub open spec fn identifier_text(id: u128) -> Seq<char> {
    let digits = hex_digits(id as nat, 32);
    digits.subrange(0, 8) + seq!['-'] + digits.subrange(8, 12) + seq!['-'] + digits.subrange(
        12,
        16,
    ) + seq!['-'] + digits.subrange(16, 20) + seq!['-'] + digits.subrange(20, 32)
}

/// `Uuid::from_u128` of the uuid crate and the `Display` of the `Uuid` it
/// gives: the hyphenated form in lower case, the most significant digit
/// first.
#[verifier::external_body]
pub(crate) fn identifier_string(id: u128) -> (text: String)
    ensures
        text@ == identifier_text(id),
{
    format!("{}", uuid::Uuid::from_u128(id))
}

/// Lines joined by a line feed between two of them.
pub open spec fn joined(lines: Seq<Seq<char>>) -> Seq<char>
    decreases lines.len(),
{
    if lines.len() == 0 {
        Seq::empty()
    } else if lines.len() == 1 {
        lines[0]
    } else {
        joined(lines.drop_last()) + seq!['\n'] + lines.last()
    }
}

/// The texts of a list of identifiers, in order.
pub open spec fn identifier_lines(ids: Seq<u128>) -> Seq<Seq<char>> {
    Seq::new(ids.len(), |i: int| identifier_text(ids[i]))
}

/// Writes identifiers one per line.
pub fn identifier_list(ids: &Vec<u128>) -> (text: String)
    ensures
        text@ == joined(identifier_lines(ids@)),
{
    let mut text = String::new();
    let mut i: usize = 0;
    while i < ids.len()
        invariant
            i <= ids.len(),
            text@ == joined(identifier_lines(ids@.subrange(0, i as int))),
        decreases ids.len() - i,
    {
        proof {
            let now = identifier_lines(ids@.subrange(0, i + 1));
            assert(now.drop_last() =~= identifier_lines(ids@.subrange(0, i as int)));
            assert(now.last() == identifier_text(ids@[i as int]));
            reveal_strlit("\n");
        }
        if i > 0 {
            text.append("\n");
        }
        text.append(identifier_string(ids[i]).as_str());
        proof {
            assert(text@ =~= joined(identifier_lines(ids@.subrange(0, i + 1))));
        }
        i += 1;
    }
    proof {
        assert(ids@.subrange(0, i as int) =~= ids@);
    }
    text
}

/// Whether a character is white space: the characters that Unicode gives
/// the property `White_Space`.
pub open spec fn is_white_space(c: char) -> bool {
    let code = c as u32;
    ||| (0x09 <= code && code <= 0x0d)
    ||| code == 0x20
    ||| code == 0x85
    ||| code == 0xa0
    ||| code == 0x1680
    ||| (0x2000 <= code && code <= 0x200a)
    ||| code == 0x2028
    ||| code == 0x2029
    ||| code == 0x202f
    ||| code == 0x205f
    ||| code == 0x3000
}

/// A text without the white space that it starts with.
pub open spec fn without_leading(text: Seq<char>) -> Seq<char>
    decreases text.len(),
{
    if text.len() > 0 && is_white_space(text[0]) {
        without_leading(text.drop_first())
    } else {
        text
    }
}

/// A text without the white space that it ends with.
pub open spec fn without_trailing(text: Seq<char>) -> Seq<char>
    decreases text.len(),
{
    if text.len() > 0 && is_white_space(text.last()) {
        without_trailing(text.drop_last())
    } else {
        text
    }
}

/// A text without the white space around it.
pub open spec fn trimmed(text: Seq<char>) -> Seq<char> {
    without_trailing(without_leading(text))
}

/// `str::trim` of std: the text without its leading and trailing white
/// space, in Unicode's sense of the word.
#[verifier::external_body]
pub(crate) fn trim(text: &str) -> (inner: &str)
    ensures
        inner@ == trimmed(text@),
{
    text.trim()
}

} // verus!

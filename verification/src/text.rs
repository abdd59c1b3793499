//! Text helpers: comparison, and decimal and hexadecimal rendering of the
//! numbers that appear in messages.

use vstd::prelude::*;
use vstd::string::StringExecFns;
use vstd::utf8::encode_utf8;

use crate::bytes::bytes_equal;

verus! {

/// The contents of each string of a list.
pub open spec fn texts(list: Seq<String>) -> Seq<Seq<char>> {
    list.map_values(|s: String| s@)
}

/// The character for one hexadecimal digit, in upper case.
pub open spec fn digit(d: nat) -> Seq<char> {
    if d == 0 {
        "0"@
    } else if d == 1 {
        "1"@
    } else if d == 2 {
        "2"@
    } else if d == 3 {
        "3"@
    } else if d == 4 {
        "4"@
    } else if d == 5 {
        "5"@
    } else if d == 6 {
        "6"@
    } else if d == 7 {
        "7"@
    } else if d == 8 {
        "8"@
    } else if d == 9 {
        "9"@
    } else if d == 10 {
        "A"@
    } else if d == 11 {
        "B"@
    } else if d == 12 {
        "C"@
    } else if d == 13 {
        "D"@
    } else if d == 14 {
        "E"@
    } else {
        "F"@
    }
}

/// The decimal form of a natural number, without leading zeros.
pub open spec fn decimal(n: nat) -> Seq<char>
    decreases n,
{
    if n < 10 {
        digit(n)
    } else {
        decimal(n / 10) + digit(n % 10)
    }
}

/// The decimal form of an integer: a minus sign before the digits of a negative one.
pub open spec fn signed_decimal(n: int) -> Seq<char> {
    if n < 0 {
        "-"@ + decimal((-n) as nat)
    } else {
        decimal(n as nat)
    }
}

/// The last `width` hexadecimal digits of a number.
pub open spec fn hex(n: nat, width: nat) -> Seq<char>
    decreases width,
{
    if width == 0 {
        Seq::empty()
    } else {
        hex(n / 16, (width - 1) as nat) + digit(n % 16)
    }
}

fn digit_text(d: u64) -> (s: &'static str)
    requires
        d < 16,
    ensures
        s@ == digit(d as nat),
{
    match d {
        0 => "0",
        1 => "1",
        2 => "2",
        3 => "3",
        4 => "4",
        5 => "5",
        6 => "6",
        7 => "7",
        8 => "8",
        9 => "9",
        10 => "A",
        11 => "B",
        12 => "C",
        13 => "D",
        14 => "E",
        _ => "F",
    }
}

/// Renders a number in decimal.
pub fn decimal_text(n: u64) -> (s: String)
    ensures
        s@ == decimal(n as nat),
    decreases n,
{
    if n < 10 {
        digit_text(n).to_string()
    } else {
        decimal_text(n / 10).concat(digit_text(n % 10))
    }
}

/// Renders a signed number in decimal.
pub fn signed_decimal_text(n: i64) -> (s: String)
    ensures
        s@ == signed_decimal(n as int),
{
    if n < 0 {
        let magnitude: u64 = (-(n + 1)) as u64 + 1;
        "-".to_string().concat(decimal_text(magnitude).as_str())
    } else {
        decimal_text(n as u64)
    }
}

/// Renders the last `width` hexadecimal digits of a number, in upper case.
pub fn hex_text(n: u64, width: u64) -> (s: String)
    ensures
        s@ == hex(n as nat, width as nat),
    decreases width,
{
    if width == 0 {
        String::new()
    } else {
        hex_text(n / 16, width - 1).concat(digit_text(n % 16))
    }
}

/// Whether two strings hold the same characters.
pub fn text_equal(a: &str, b: &str) -> (equal: bool)
    ensures
        equal == (a@ == b@),
{
    proof {
        lemma_utf8_injective(a@, b@);
    }
    bytes_equal(a.as_bytes(), b.as_bytes())
}

/// Two texts, one after the other.
pub fn join(head: &str, tail: &str) -> (s: String)
    ensures
        s@ == head@ + tail@,
{
    head.to_string().concat(tail)
}

/// Three texts, one after the other.
pub fn join3(a: &str, b: &str, c: &str) -> (s: String)
    ensures
        s@ == a@ + b@ + c@,
{
    join(a, b).concat(c)
}

/// Five texts, one after the other.
pub fn join5(a: &str, b: &str, c: &str, d: &str, e: &str) -> (s: String)
    ensures
        s@ == a@ + b@ + c@ + d@ + e@,
{
    join3(a, b, c).concat(d).concat(e)
}

/// Two texts with the same UTF-8 encoding are the same text.
pub proof fn lemma_utf8_injective(a: Seq<char>, b: Seq<char>)
    ensures
        encode_utf8(a) == encode_utf8(b) ==> a == b,
{
    vstd::utf8::encode_utf8_decode_utf8(a);
    vstd::utf8::encode_utf8_decode_utf8(b);
}

/// The number that decimal digits stand for.
pub open spec fn read_digits(text: Seq<char>, base: int) -> int
    decreases text.len(),
{
    if text.len() == 0 {
        0
    } else {
        let c = text.last() as int;
        read_digits(text.drop_last(), base) * base + if c <= '9' as int {
            c - '0' as int
        } else {
            c - 'A' as int + 10
        }
    }
}

proof fn lemma_digit(d: nat)
    requires
        d < 16,
    ensures
        digit(d).len() == 1,
        digit(d)[0] as int == if d < 10 {
            '0' as int + d
        } else {
            'A' as int + d - 10
        },
{
    reveal_strlit("0");
    reveal_strlit("1");
    reveal_strlit("2");
    reveal_strlit("3");
    reveal_strlit("4");
    reveal_strlit("5");
    reveal_strlit("6");
    reveal_strlit("7");
    reveal_strlit("8");
    reveal_strlit("9");
    reveal_strlit("A");
    reveal_strlit("B");
    reveal_strlit("C");
    reveal_strlit("D");
    reveal_strlit("E");
    reveal_strlit("F");
}

proof fn lemma_read_more(text: Seq<char>, d: nat, base: int)
    requires
        d < 16,
    ensures
        read_digits(text + digit(d), base) == read_digits(text, base) * base + d,
{
    lemma_digit(d);
    let longer = text + digit(d);
    assert(longer.drop_last() =~= text);
    assert(longer.last() == digit(d)[0]);
}

/// A number in decimal reads back, and has no leading zeros; a negative one has a sign.
pub proof fn law_decimal_reads_back(n: nat)
    ensures
        read_digits(decimal(n), 10) == n,
        decimal(n).len() > 0,
        n > 0 ==> decimal(n)[0] != '0',
        n == 0 ==> decimal(n).len() == 1,
        signed_decimal(n as int) == decimal(n),
        n > 0 ==> signed_decimal(-(n as int)) == "-"@ + decimal(n),
    decreases n,
{
    if n < 10 {
        lemma_read_more(Seq::empty(), n, 10);
        lemma_digit(n);
        assert(Seq::<char>::empty() + digit(n) =~= digit(n));
    } else {
        law_decimal_reads_back(n / 10);
        lemma_read_more(decimal(n / 10), n % 10, 10);
        lemma_digit(n % 10);
        assert(decimal(n)[0] == decimal(n / 10)[0]);
    }
}

/// A number in hexadecimal has the given width and reads back, where it fits.
pub proof fn law_hex_reads_back(n: nat, width: nat)
    ensures
        hex(n, width).len() == width,
        width == 4 && n < 0x1_0000 ==> read_digits(hex(n, width), 16) == n,
        width == 8 && n < 0x1_0000_0000 ==> read_digits(hex(n, width), 16) == n,
    decreases width,
{
    if width > 0 {
        law_hex_reads_back(n / 16, (width - 1) as nat);
        lemma_digit(n % 16);
    }
    lemma_hex_value(n, width);
}

spec fn sixteens(width: nat) -> nat
    decreases width,
{
    if width == 0 {
        1
    } else {
        16 * sixteens((width - 1) as nat)
    }
}

proof fn lemma_hex_value(n: nat, width: nat)
    ensures
        n < sixteens(width) ==> read_digits(hex(n, width), 16) == n,
        sixteens(4) == 0x1_0000,
        sixteens(8) == 0x1_0000_0000,
    decreases width,
{
    reveal_with_fuel(sixteens, 9);
    if width > 0 {
        lemma_hex_value(n / 16, (width - 1) as nat);
        lemma_read_more(hex(n / 16, (width - 1) as nat), n % 16, 16);
    }
}

} // verus!

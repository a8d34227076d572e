use vstd::prelude::*;
use vstd::string::StringExecFns;

verus! {

/// The uppercase hexadecimal digit character for a value 0 through 15.
pub open spec fn hex_digit(n: int) -> char {
    if n == 0 {
        '0'
    } else if n == 1 {
        '1'
    } else if n == 2 {
        '2'
    } else if n == 3 {
        '3'
    } else if n == 4 {
        '4'
    } else if n == 5 {
        '5'
    } else if n == 6 {
        '6'
    } else if n == 7 {
        '7'
    } else if n == 8 {
        '8'
    } else if n == 9 {
        '9'
    } else if n == 10 {
        'A'
    } else if n == 11 {
        'B'
    } else if n == 12 {
        'C'
    } else if n == 13 {
        'D'
    } else if n == 14 {
        'E'
    } else {
        'F'
    }
}

/// The numeric value of an uppercase hexadecimal digit character;
/// 16 marks any other character.
pub open spec fn unhex(c: char) -> int {
    if c == '0' {
        0
    } else if c == '1' {
        1
    } else if c == '2' {
        2
    } else if c == '3' {
        3
    } else if c == '4' {
        4
    } else if c == '5' {
        5
    } else if c == '6' {
        6
    } else if c == '7' {
        7
    } else if c == '8' {
        8
    } else if c == '9' {
        9
    } else if c == 'A' {
        10
    } else if c == 'B' {
        11
    } else if c == 'C' {
        12
    } else if c == 'D' {
        13
    } else if c == 'E' {
        14
    } else if c == 'F' {
        15
    } else {
        16
    }
}

/// Reading a hex digit back gives the value it was written from.
pub proof fn lemma_unhex_hex_digit(n: int)
    requires
        0 <= n < 16,
    ensures
        unhex(hex_digit(n)) == n,
{
}

/// Decimal text of a nonnegative integer, most significant digit first.
pub open spec fn dec_digits(n: int) -> Seq<char>
    decreases n,
{
    if n < 10 {
        seq![hex_digit(n)]
    } else {
        dec_digits(n / 10).push(hex_digit(n % 10))
    }
}

/// Decimal text of a signed integer: a leading minus sign when negative.
pub open spec fn int_text(v: int) -> Seq<char> {
    if v < 0 {
        seq!['-'] + dec_digits(-v)
    } else {
        dec_digits(v)
    }
}

/// The default text of a boolean.
pub open spec fn bool_text(b: bool) -> Seq<char> {
    if b {
        seq!['t', 'r', 'u', 'e']
    } else {
        seq!['f', 'a', 'l', 's', 'e']
    }
}

/// Relies on `String::push`: appends exactly the one character.
#[verifier::external_body]
pub(crate) fn push_char(s: &mut String, c: char)
    ensures
        final(s)@ == old(s)@ + seq![c],
{
    s.push(c);
}

/// The uppercase hexadecimal digit character, executably.
pub(crate) fn hex_digit_char(n: u8) -> (c: char)
    requires
        n < 16,
    ensures
        c == hex_digit(n as int),
{
    match n {
        0 => '0',
        1 => '1',
        2 => '2',
        3 => '3',
        4 => '4',
        5 => '5',
        6 => '6',
        7 => '7',
        8 => '8',
        9 => '9',
        10 => 'A',
        11 => 'B',
        12 => 'C',
        13 => 'D',
        14 => 'E',
        _ => 'F',
    }
}

/// Renders an unsigned 64-bit value as decimal text.
pub fn u64_text(n: u64) -> (s: String)
    ensures
        s@ == dec_digits(n as int),
    decreases n,
{
    if n < 10 {
        let mut s = String::new();
        push_char(&mut s, hex_digit_char(n as u8));
        assert(s@ == dec_digits(n as int));
        s
    } else {
        let mut s = u64_text(n / 10);
        push_char(&mut s, hex_digit_char((n % 10) as u8));
        assert(s@ =~= dec_digits(n as int));
        s
    }
}

/// Renders a signed 64-bit value as decimal text.
pub fn i64_text(v: i64) -> (s: String)
    ensures
        s@ == int_text(v as int),
{
    if v >= 0 {
        u64_text(v as u64)
    } else {
        let mag: u64 = if v == i64::MIN {
            9223372036854775808u64
        } else {
            (-v) as u64
        };
        assert(mag as int == -(v as int));
        let mut s = String::new();
        push_char(&mut s, '-');
        let digits = u64_text(mag);
        s.append(digits.as_str());
        assert(s@ =~= int_text(v as int));
        s
    }
}

/// Renders an unsigned 128-bit value as decimal text.
pub fn u128_text(n: u128) -> (s: String)
    ensures
        s@ == dec_digits(n as int),
    decreases n,
{
    if n < 10 {
        let mut s = String::new();
        push_char(&mut s, hex_digit_char(n as u8));
        assert(s@ == dec_digits(n as int));
        s
    } else {
        let mut s = u128_text(n / 10);
        push_char(&mut s, hex_digit_char((n % 10) as u8));
        assert(s@ =~= dec_digits(n as int));
        s
    }
}

/// Renders a signed 128-bit value as decimal text.
pub fn i128_text(v: i128) -> (s: String)
    ensures
        s@ == int_text(v as int),
{
    if v >= 0 {
        u128_text(v as u128)
    } else {
        let mag: u128 = if v == i128::MIN {
            170141183460469231731687303715884105728u128
        } else {
            (-v) as u128
        };
        assert(mag as int == -(v as int));
        let mut s = String::new();
        push_char(&mut s, '-');
        let digits = u128_text(mag);
        s.append(digits.as_str());
        assert(s@ =~= int_text(v as int));
        s
    }
}

/// Renders a boolean as its default text.
pub fn bool_str(b: bool) -> (s: &'static str)
    ensures
        s@ == bool_text(b),
{
    if b {
        let s = "true";
        proof {
            reveal_strlit("true");
            assert(s@ =~= bool_text(b));
        }
        s
    } else {
        let s = "false";
        proof {
            reveal_strlit("false");
            assert(s@ =~= bool_text(b));
        }
        s
    }
}

} // verus!

//! Character-level helpers for building strings: hexadecimal and decimal
//! digits, and the contracts of `String::push` and `String::push_str`, which
//! vstd does not specify.
use vstd::prelude::*;

verus! {

/// `String::push` appends one character at the end of the string (std documentation).
pub assume_specification[ String::push ](string: &mut String, ch: char)
    ensures
        final(string)@ == old(string)@.push(ch),
;

/// `String::push_str` appends the characters of a string slice at the end of the
/// string (std documentation).
pub assume_specification[ String::push_str ](string: &mut String, tail: &str)
    ensures
        final(string)@ == old(string)@ + tail@,
;

/// The lowercase hexadecimal digit for a value below 16.
pub open spec fn hex_digit(n: int) -> char {
    if n < 10 {
        (48 + n) as char
    } else {
        (87 + n) as char
    }
}

/// Lowercase hexadecimal encoding, two digits per byte, high nibble first.
pub open spec fn hex_encode(bytes: Seq<u8>) -> Seq<char> {
    Seq::new(
        2 * bytes.len(),
        |i: int|
            if i % 2 == 0 {
                hex_digit((bytes[i / 2] / 16) as int)
            } else {
                hex_digit((bytes[i / 2] % 16) as int)
            },
    )
}

/// The lowercase hexadecimal digit of a nibble.
pub fn nibble_char(n: u8) -> (c: char)
    requires
        n < 16,
    ensures
        c == hex_digit(n as int),
{
    if n < 10 {
        (48u8 + n) as char
    } else {
        (87u8 + n) as char
    }
}

/// Appends the two lowercase hexadecimal digits of `byte` to `out`.
pub fn push_hex_byte(out: &mut String, byte: u8)
    ensures
        final(out)@ == old(out)@ + hex_encode(seq![byte]),
{
    out.push(nibble_char(byte / 16));
    out.push(nibble_char(byte % 16));
    assert(out@ =~= old(out)@ + hex_encode(seq![byte]));
}

/// Lowercase hexadecimal encoding of a byte sequence.
pub fn encode_hex(bytes: &[u8]) -> (s: String)
    ensures
        s@ == hex_encode(bytes@),
{
    let mut s = String::new();
    let n: usize = bytes.len();
    for i in 0..n
        invariant
            n == bytes@.len(),
            s@ == hex_encode(bytes@.take(i as int)),
    {
        push_hex_byte(&mut s, bytes[i]);
        assert(hex_encode(bytes@.take(i as int)) + hex_encode(seq![bytes@[i as int]])
            =~= hex_encode(bytes@.take(i + 1)));
    }
    assert(bytes@.take(n as int) =~= bytes@);
    s
}

/// Decimal notation of a natural number, without leading zeros.
pub open spec fn decimal(n: nat) -> Seq<char>
    decreases n,
{
    if n < 10 {
        seq![hex_digit(n as int)]
    } else {
        decimal(n / 10).push(hex_digit((n % 10) as int))
    }
}

/// Appends the decimal notation of `n` to `out`.
pub fn push_decimal(out: &mut String, n: u64)
    ensures
        final(out)@ == old(out)@ + decimal(n as nat),
    decreases n,
{
    if n >= 10 {
        push_decimal(out, n / 10);
    }
    out.push(nibble_char((n % 10) as u8));
    assert(out@ =~= old(out)@ + decimal(n as nat));
}

/// The decimal notation of `n`.
pub fn decimal_string(n: u64) -> (s: String)
    ensures
        s@ == decimal(n as nat),
{
    let mut s = String::new();
    push_decimal(&mut s, n);
    assert(s@ =~= decimal(n as nat));
    s
}

} // verus!

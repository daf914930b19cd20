//! Text that the gateway reads from bytes and writes into its answers.

use vstd::prelude::*;
use vstd::utf8::{
    decode_utf8, encode_utf8, encode_utf8_decode_utf8, encode_utf8_valid_utf8, is_ascii_chars,
    is_ascii_chars_encode_utf8, valid_utf8,
};

verus! {

/// `String::from_utf8` of the standard library: the text that `bytes`
/// encode, if and only if they are UTF-8. Not proved: that the standard
/// library accepts exactly the byte sequences that `valid_utf8` describes,
/// and reads them as `decode_utf8` does.
#[verifier::external_body]
pub(crate) fn string_from_utf8(bytes: Vec<u8>) -> (r: Option<String>)
    ensures
        r is Some <==> valid_utf8(bytes@),
        r matches Some(text) ==> text@ == decode_utf8(bytes@),
{
    match String::from_utf8(bytes) {
        Ok(text) => Some(text),
        Err(_) => None,
    }
}

/// That every byte is an ASCII character.
pub open spec fn all_ascii(bytes: Seq<u8>) -> bool {
    forall|i: int| 0 <= i < bytes.len() ==> #[trigger] bytes[i] < 128
}

/// The characters that ASCII bytes stand for.
pub open spec fn ascii_chars(bytes: Seq<u8>) -> Seq<char> {
    Seq::new(bytes.len(), |i: int| bytes[i] as char)
}

/// ASCII bytes behind ASCII bytes spell the one text behind the other.
pub proof fn lemma_ascii_chars_concat(a: Seq<u8>, b: Seq<u8>)
    ensures
        ascii_chars(a + b) == ascii_chars(a) + ascii_chars(b),
        all_ascii(a) && all_ascii(b) ==> all_ascii(a + b),
{
    assert(ascii_chars(a + b) =~= ascii_chars(a) + ascii_chars(b));
}

proof fn lemma_ascii_is_utf8(bytes: Seq<u8>)
    requires
        all_ascii(bytes),
    ensures
        valid_utf8(bytes),
        decode_utf8(bytes) == ascii_chars(bytes),
{
    let chars = ascii_chars(bytes);
    assert(is_ascii_chars(chars)) by {
        assert forall|i: int| 0 <= i < chars.len() implies '\0' <= #[trigger] chars[i] <= '\u{7f}' by {
            assert(bytes[i] < 128);
        }
    }
    is_ascii_chars_encode_utf8(chars);
    assert(encode_utf8(chars) =~= bytes) by {
        assert forall|i: int| 0 <= i < bytes.len() implies encode_utf8(chars)[i] == bytes[i] by {
            assert(bytes[i] < 128);
            assert(chars[i] as u8 == bytes[i]);
        }
    }
    encode_utf8_valid_utf8(chars);
    encode_utf8_decode_utf8(chars);
}

/// The text that ASCII bytes spell.
pub fn ascii_string(bytes: Vec<u8>) -> (text: String)
    requires
        all_ascii(bytes@),
    ensures
        text@ == ascii_chars(bytes@),
{
    proof {
        lemma_ascii_is_utf8(bytes@);
    }
    match string_from_utf8(bytes) {
        Some(text) => text,
        None => String::new(),
    }
}

/// The ASCII digit for `d`, which is below ten.
pub open spec fn digit_byte(d: int) -> u8 {
    (48 + d) as u8
}

/// `n` in decimal, without leading zeros.
pub open spec fn decimal_bytes(n: nat) -> Seq<u8>
    decreases n,
{
    if n < 10 {
        seq![digit_byte(n as int)]
    } else {
        decimal_bytes(n / 10).push(digit_byte((n % 10) as int))
    }
}

/// `n` in decimal, with a minus sign where it is negative.
pub open spec fn signed_decimal_bytes(n: int) -> Seq<u8> {
    if n < 0 {
        seq![45u8] + decimal_bytes((-n) as nat)
    } else {
        decimal_bytes(n as nat)
    }
}

/// The lower-case ASCII digit for `d`, which is below sixteen.
pub open spec fn hex_digit_byte(d: int) -> u8 {
    if d < 10 {
        (48 + d) as u8
    } else {
        (87 + d) as u8
    }
}

/// A byte in lower-case hexadecimal, without a leading zero.
pub open spec fn hex_bytes(b: u8) -> Seq<u8> {
    if b < 16 {
        seq![hex_digit_byte(b as int)]
    } else {
        seq![hex_digit_byte(b as int / 16), hex_digit_byte(b as int % 16)]
    }
}

/// A number in decimal is one ASCII digit or more.
pub proof fn lemma_decimal_ascii(n: nat)
    ensures
        all_ascii(decimal_bytes(n)),
        decimal_bytes(n).len() >= 1,
    decreases n,
{
    if n >= 10 {
        lemma_decimal_ascii(n / 10);
    }
}

/// Appends `n` in decimal.
pub fn push_decimal(out: &mut Vec<u8>, n: u64)
    ensures
        final(out)@ == old(out)@ + decimal_bytes(n as nat),
    decreases n,
{
    if n >= 10 {
        push_decimal(out, n / 10);
    }
    out.push(48 + (n % 10) as u8);
    assert(final(out)@ =~= old(out)@ + decimal_bytes(n as nat));
}

/// Appends `n` in decimal, with its sign where it is negative.
pub fn push_signed_decimal(out: &mut Vec<u8>, n: i64)
    ensures
        final(out)@ == old(out)@ + signed_decimal_bytes(n as int),
{
    if n < 0 {
        out.push(45);
        let magnitude: u64 = (-(n + 1)) as u64 + 1;
        push_decimal(out, magnitude);
        assert(final(out)@ =~= old(out)@ + signed_decimal_bytes(n as int));
    } else {
        push_decimal(out, n as u64);
    }
}

/// Appends a byte in lower-case hexadecimal.
pub fn push_hex(out: &mut Vec<u8>, b: u8)
    ensures
        final(out)@ == old(out)@ + hex_bytes(b),
{
    if b >= 16 {
        let high: u8 = b / 16;
        out.push(if high < 10 {
            48 + high
        } else {
            87 + high
        });
    }
    let low: u8 = b % 16;
    out.push(if low < 10 {
        48 + low
    } else {
        87 + low
    });
    assert(final(out)@ =~= old(out)@ + hex_bytes(b));
}

/// `n` in decimal, as text.
pub open spec fn decimal_text(n: int) -> Seq<char> {
    ascii_chars(signed_decimal_bytes(n))
}

/// Writes `n` in decimal.
pub fn decimal_string(n: i64) -> (text: String)
    ensures
        text@ == decimal_text(n as int),
{
    let mut out: Vec<u8> = Vec::new();
    push_signed_decimal(&mut out, n);
    proof {
        if n < 0 {
            lemma_decimal_ascii((-n) as nat);
        } else {
            lemma_decimal_ascii(n as nat);
        }
        assert(out@ =~= signed_decimal_bytes(n as int));
    }
    ascii_string(out)
}

/// `n` in decimal, as text.
pub open spec fn unsigned_text(n: nat) -> Seq<char> {
    ascii_chars(decimal_bytes(n))
}

/// Writes `n` in decimal.
pub fn unsigned_string(n: u64) -> (text: String)
    ensures
        text@ == unsigned_text(n as nat),
{
    let mut out: Vec<u8> = Vec::new();
    push_decimal(&mut out, n);
    proof {
        lemma_decimal_ascii(n as nat);
        assert(out@ =~= decimal_bytes(n as nat));
    }
    ascii_string(out)
}

/// Whether a byte prints as itself: a printable ASCII character or a tab.
pub open spec fn is_visible(b: u8) -> bool {
    (32 <= b < 127) || b == 9
}

/// A byte as it stands inside a quoted value: itself where it prints and
/// is no quote, a quote behind a backslash, and `\x` with the byte in
/// hexadecimal otherwise.
pub open spec fn escaped_byte(b: u8) -> Seq<u8> {
    if b == 34 {
        seq![92u8, 34u8]
    } else if is_visible(b) {
        seq![b]
    } else {
        seq![92u8, 120u8] + hex_bytes(b)
    }
}

/// The bytes of a value, each escaped, in their order.
pub open spec fn escaped_bytes(value: Seq<u8>) -> Seq<u8>
    decreases value.len(),
{
    if value.len() == 0 {
        Seq::empty()
    } else {
        escaped_bytes(value.drop_last()) + escaped_byte(value.last())
    }
}

/// A value between double quotes, with what does not print escaped.
pub open spec fn quoted_text(value: Seq<u8>) -> Seq<char> {
    ascii_chars(seq![34u8] + escaped_bytes(value) + seq![34u8])
}

/// Writes a value between double quotes, with what does not print escaped.
pub fn quoted_string(value: &[u8]) -> (text: String)
    ensures
        text@ == quoted_text(value@),
{
    let mut out: Vec<u8> = Vec::new();
    out.push(34);
    let mut i: usize = 0;
    assert(value@.take(0) =~= Seq::empty());
    while i < value.len()
        invariant
            i <= value.len(),
            out@ == seq![34u8] + escaped_bytes(value@.take(i as int)),
            all_ascii(out@),
        decreases value.len() - i,
    {
        let b: u8 = value[i];
        let ghost before = out@;
        if b == 34 {
            out.push(92);
            out.push(34);
        } else if (32 <= b && b < 127) || b == 9 {
            out.push(b);
        } else {
            out.push(92);
            out.push(120);
            push_hex(&mut out, b);
        }
        proof {
            assert(value@.take(i + 1).drop_last() =~= value@.take(i as int));
            assert(value@.take(i + 1).last() == b);
            assert(out@ =~= before + escaped_byte(b));
            assert(all_ascii(escaped_byte(b)));
            lemma_ascii_chars_concat(before, escaped_byte(b));
        }
        i = i + 1;
    }
    out.push(34);
    assert(value@.take(i as int) =~= value@);
    assert(out@ =~= seq![34u8] + escaped_bytes(value@) + seq![34u8]);
    ascii_string(out)
}

} // verus!

//! Protocol Buffers wire format: varints, field keys and the skipping of
//! fields that a message does not know.
//!
//! Every reader takes the whole buffer and a position in it, and is stated
//! against a function of the byte sequence that says what is read at that
//! position and where the next read starts.

use vstd::prelude::*;

verus! {

/// How the payload of a field is laid out on the wire.
#[derive(Clone, Copy, Debug, PartialEq, Eq, Structural)]
pub enum WireType {
    Varint,
    SixtyFourBit,
    LengthDelimited,
    StartGroup,
    EndGroup,
    ThirtyTwoBit,
}

/// Why a byte sequence is not a well-formed message.
#[derive(Clone, Copy, Debug, PartialEq, Eq, Structural)]
pub enum DecodeError {
    /// A varint ends early, runs over ten bytes or overflows 64 bits.
    InvalidVarint,
    /// Fields or groups are nested deeper than the decoder follows.
    RecursionLimitReached,
    /// A key names one of the two wire types that do not exist.
    InvalidWireType { value: u64 },
    /// A key does not fit in 32 bits.
    InvalidKey { key: u64 },
    /// A key carries the field number zero.
    InvalidTag,
    /// A known field arrives with another wire type than its own.
    UnexpectedWireType { actual: WireType, expected: WireType },
    /// A payload is longer than what is left of the buffer.
    BufferUnderflow,
    /// The fields of an embedded message run past its announced length.
    DelimitedLengthExceeded,
    /// A group is closed by a key with another field number, or a group
    /// end stands where no group is open.
    UnexpectedEndGroupTag,
    /// A string field does not hold UTF-8.
    InvalidString,
}

/// The nesting depth that a decoder starts with.
pub const RECURSION_LIMIT: u32 = 100;

/// 128 to the power `i`.
pub open spec fn pow128(i: nat) -> nat
    decreases i,
{
    if i == 0 {
        1
    } else {
        128 * pow128((i - 1) as nat)
    }
}

/// The varint at `pos` whose first `i` bytes, all with the continuation bit
/// set, have contributed `acc`: its value and the position behind it.
pub open spec fn varint_from(s: Seq<u8>, pos: int, i: nat, acc: int) -> Result<(u64, int), DecodeError>
    decreases 10 - i,
{
    if i >= 10 || pos < 0 || pos + i >= s.len() {
        Err(DecodeError::InvalidVarint)
    } else {
        let b = s[pos + i];
        if b < 128 {
            if i == 9 && b >= 2 {
                Err(DecodeError::InvalidVarint)
            } else {
                Ok(((acc + b * pow128(i)) as u64, pos + i + 1))
            }
        } else {
            varint_from(s, pos, i + 1, acc + (b - 128) * pow128(i))
        }
    }
}

/// The base-128 varint that starts at `pos`: least significant group first,
/// at most ten bytes, the value below 2^64.
pub open spec fn varint_at(s: Seq<u8>, pos: int) -> Result<(u64, int), DecodeError> {
    varint_from(s, pos, 0, 0)
}

/// The wire type that the low three bits of a key stand for.
pub open spec fn wire_type_of(value: u64) -> Option<WireType> {
    if value == 0 {
        Some(WireType::Varint)
    } else if value == 1 {
        Some(WireType::SixtyFourBit)
    } else if value == 2 {
        Some(WireType::LengthDelimited)
    } else if value == 3 {
        Some(WireType::StartGroup)
    } else if value == 4 {
        Some(WireType::EndGroup)
    } else if value == 5 {
        Some(WireType::ThirtyTwoBit)
    } else {
        None
    }
}

/// The field key at `pos`: field number, wire type and the position of the
/// payload.
pub open spec fn key_at(s: Seq<u8>, pos: int) -> Result<(u32, WireType, int), DecodeError> {
    match varint_at(s, pos) {
        Err(e) => Err(e),
        Ok((key, next)) => {
            if key > u32::MAX {
                Err(DecodeError::InvalidKey { key })
            } else {
                match wire_type_of((key % 8) as u64) {
                    None => Err(DecodeError::InvalidWireType { value: (key % 8) as u64 }),
                    Some(wire) => {
                        if key / 8 == 0 {
                            Err(DecodeError::InvalidTag)
                        } else {
                            Ok(((key / 8) as u32, wire, next))
                        }
                    },
                }
            }
        },
    }
}

/// `wire` where it is the wire type that a field expects.
pub open spec fn expect_wire(expected: WireType, actual: WireType) -> Result<(), DecodeError> {
    if expected == actual {
        Ok(())
    } else {
        Err(DecodeError::UnexpectedWireType { actual, expected })
    }
}

/// The position `len` bytes behind `pos`, where the buffer holds as many.
pub open spec fn advance_at(s: Seq<u8>, pos: int, len: int) -> Result<int, DecodeError> {
    if len > s.len() - pos {
        Err(DecodeError::BufferUnderflow)
    } else {
        Ok(pos + len)
    }
}

/// The length-delimited payload announced at `pos`: where it starts and
/// where it ends.
pub open spec fn delimited_at(s: Seq<u8>, pos: int) -> Result<(int, int), DecodeError> {
    match varint_at(s, pos) {
        Err(e) => Err(e),
        Ok((len, start)) => match advance_at(s, start, len as int) {
            Err(e) => Err(e),
            Ok(end) => Ok((start, end)),
        },
    }
}

/// What is left of the buffer at `pos`, or zero behind its end.
pub open spec fn left(s: Seq<u8>, pos: int) -> int {
    if pos < s.len() {
        s.len() - pos
    } else {
        0
    }
}

/// The position behind the payload at `pos` of an unknown field with the
/// given wire type and number, `budget` being the nesting depth still allowed.
pub open spec fn skip_at(s: Seq<u8>, pos: int, wire: WireType, tag: u32, budget: nat) -> Result<int, DecodeError>
    decreases budget, left(s, pos) + 1,
{
    if budget == 0 {
        Err(DecodeError::RecursionLimitReached)
    } else {
        match wire {
            WireType::Varint => match varint_at(s, pos) {
                Err(e) => Err(e),
                Ok((_, next)) => Ok(next),
            },
            WireType::ThirtyTwoBit => advance_at(s, pos, 4),
            WireType::SixtyFourBit => advance_at(s, pos, 8),
            WireType::LengthDelimited => match delimited_at(s, pos) {
                Err(e) => Err(e),
                Ok((_, end)) => Ok(end),
            },
            WireType::StartGroup => group_end_at(s, pos, tag, budget),
            WireType::EndGroup => Err(DecodeError::UnexpectedEndGroupTag),
        }
    }
}

/// The position behind the end marker of the group with number `tag` whose
/// remaining fields start at `pos`. Every field of the group ends behind
/// its key and inside the buffer (`lemma_skip_bounds`), so the branch that
/// reports an underflow is never taken.
pub open spec fn group_end_at(s: Seq<u8>, pos: int, tag: u32, budget: nat) -> Result<int, DecodeError>
    decreases budget, left(s, pos),
{
    match key_at(s, pos) {
        Err(e) => Err(e),
        Ok((inner_tag, inner_wire, payload)) => {
            if inner_wire == WireType::EndGroup {
                if inner_tag != tag {
                    Err(DecodeError::UnexpectedEndGroupTag)
                } else {
                    Ok(payload)
                }
            } else if budget == 0 {
                Err(DecodeError::RecursionLimitReached)
            } else {
                match skip_at(s, payload, inner_wire, inner_tag, (budget - 1) as nat) {
                    Err(e) => Err(e),
                    Ok(next) => {
                        if pos < next <= s.len() {
                            group_end_at(s, next, tag, budget)
                        } else {
                            Err(DecodeError::BufferUnderflow)
                        }
                    },
                }
            }
        },
    }
}

/// The eight bytes at `pos` read as a little-endian number.
pub open spec fn le64_at(s: Seq<u8>, pos: int) -> u64 {
    (s[pos] + s[pos + 1] * 0x100 + s[pos + 2] * 0x1_0000 + s[pos + 3] * 0x100_0000 + s[pos + 4]
        * 0x1_0000_0000 + s[pos + 5] * 0x100_0000_0000 + s[pos + 6] * 0x1_0000_0000_0000 + s[pos
        + 7] * 0x100_0000_0000_0000) as u64
}

/// That an executable reader's result is what the byte sequence holds.
pub open spec fn read_as<T>(r: Result<(T, usize), DecodeError>, expected: Result<(T, int), DecodeError>) -> bool {
    match r {
        Ok((v, next)) => expected == Ok::<(T, int), DecodeError>((v, next as int)),
        Err(e) => expected == Err::<(T, int), DecodeError>(e),
    }
}

/// That an executable skip ends where the byte sequence says.
pub open spec fn moved_as(r: Result<usize, DecodeError>, expected: Result<int, DecodeError>) -> bool {
    match r {
        Ok(next) => expected == Ok::<int, DecodeError>(next as int),
        Err(e) => expected == Err::<int, DecodeError>(e),
    }
}

/// The powers of 128 that a varint of ten bytes needs.
pub proof fn lemma_pow128_values()
    ensures
        pow128(0) == 1,
        pow128(1) == 0x80,
        pow128(2) == 0x4000,
        pow128(3) == 0x20_0000,
        pow128(4) == 0x1000_0000,
        pow128(5) == 0x8_0000_0000,
        pow128(6) == 0x400_0000_0000,
        pow128(7) == 0x2_0000_0000_0000,
        pow128(8) == 0x100_0000_0000_0000,
        pow128(9) == 0x8000_0000_0000_0000,
{
    reveal_with_fuel(pow128, 11);
}

proof fn lemma_varint_from_bounds(s: Seq<u8>, pos: int, i: nat, acc: int)
    requires
        0 <= pos,
    ensures
        varint_from(s, pos, i, acc) matches Ok((_, next)) ==> pos + i < next <= s.len() && next <= pos + 10,
    decreases 10 - i,
{
    if i < 10 && pos + i < s.len() && s[pos + i] >= 128 {
        lemma_varint_from_bounds(s, pos, i + 1, acc + (s[pos + i] - 128) * pow128(i));
    }
}

/// A varint takes between one and ten bytes of the buffer.
pub proof fn lemma_varint_bounds(s: Seq<u8>, pos: int)
    requires
        0 <= pos,
    ensures
        varint_at(s, pos) matches Ok((_, next)) ==> pos < next <= s.len() && next <= pos + 10,
{
    lemma_varint_from_bounds(s, pos, 0, 0);
}

/// A key takes one byte or more of the buffer, and its field number is not
/// zero.
pub proof fn lemma_key_bounds(s: Seq<u8>, pos: int)
    requires
        0 <= pos,
    ensures
        key_at(s, pos) matches Ok((tag, _, next)) ==> pos < next <= s.len() && tag >= 1,
{
    lemma_varint_bounds(s, pos);
}

/// A length-delimited payload lies behind its length and inside the
/// buffer.
pub proof fn lemma_delimited_bounds(s: Seq<u8>, pos: int)
    requires
        0 <= pos,
    ensures
        delimited_at(s, pos) matches Ok((start, end)) ==> pos < start <= end <= s.len(),
{
    lemma_varint_bounds(s, pos);
}

/// Stepping over a field ends inside the buffer and never moves back.
pub proof fn lemma_skip_bounds(s: Seq<u8>, pos: int, wire: WireType, tag: u32, budget: nat)
    requires
        0 <= pos <= s.len(),
    ensures
        skip_at(s, pos, wire, tag, budget) matches Ok(next) ==> pos <= next <= s.len(),
    decreases budget, left(s, pos) + 1,
{
    if budget != 0 {
        match wire {
            WireType::Varint => {
                lemma_varint_bounds(s, pos);
            },
            WireType::LengthDelimited => {
                lemma_delimited_bounds(s, pos);
            },
            WireType::StartGroup => {
                lemma_group_bounds(s, pos, tag, budget);
            },
            _ => {},
        }
    }
}

/// Stepping over a group ends inside the buffer, behind where it began.
pub proof fn lemma_group_bounds(s: Seq<u8>, pos: int, tag: u32, budget: nat)
    requires
        0 <= pos <= s.len(),
    ensures
        group_end_at(s, pos, tag, budget) matches Ok(next) ==> pos < next <= s.len(),
    decreases budget, left(s, pos),
{
    lemma_key_bounds(s, pos);
    match key_at(s, pos) {
        Err(_) => {},
        Ok((inner_tag, inner_wire, payload)) => {
            if inner_wire != WireType::EndGroup && budget != 0 {
                lemma_skip_bounds(s, payload, inner_wire, inner_tag, (budget - 1) as nat);
                match skip_at(s, payload, inner_wire, inner_tag, (budget - 1) as nat) {
                    Err(_) => {},
                    Ok(next) => {
                        lemma_group_bounds(s, next, tag, budget);
                    },
                }
            }
        },
    }
}

/// Reads the varint at `pos`.
pub fn read_varint(buf: &[u8], pos: usize) -> (r: Result<(u64, usize), DecodeError>)
    ensures
        read_as(r, varint_at(buf@, pos as int)),
        r matches Ok((_, next)) ==> pos < next <= buf.len() && next <= pos + 10,
{
    if pos >= buf.len() {
        return Err(DecodeError::InvalidVarint);
    }
    let avail: usize = buf.len() - pos;
    let mut i: usize = 0;
    let mut value: u64 = 0;
    let mut scale: u64 = 1;
    proof {
        lemma_pow128_values();
    }
    while i < avail
        invariant
            pos <= buf.len(),
            avail == buf.len() - pos,
            i <= 9,
            i <= avail,
            scale == pow128(i as nat),
            value < scale,
            varint_from(buf@, pos as int, i as nat, value as int) == varint_at(buf@, pos as int),
        decreases avail - i,
    {
        proof {
            lemma_pow128_values();
        }
        let b: u8 = buf[pos + i];
        if b < 128 {
            if i == 9 && b >= 2 {
                return Err(DecodeError::InvalidVarint);
            }
            assert(b as int * scale as int <= 127 * scale as int) by (nonlinear_arith)
                requires
                    b <= 127,
                    scale >= 0,
            ;
            assert(i == 9 ==> b as int * scale as int <= scale as int) by (nonlinear_arith)
                requires
                    i == 9 ==> b <= 1,
                    scale >= 0,
            ;
            let total: u64 = value + (b as u64) * scale;
            return Ok((total, pos + i + 1));
        }
        if i == 9 {
            assert(varint_from(buf@, pos as int, 10, value + (b - 128) * pow128(9)) is Err);
            return Err(DecodeError::InvalidVarint);
        }
        let digit: u64 = (b - 128) as u64;
        assert(digit as int * scale as int <= 127 * scale as int) by (nonlinear_arith)
            requires
                digit <= 127,
                scale >= 0,
        ;
        assert(pow128((i + 1) as nat) == 128 * pow128(i as nat));
        value = value + digit * scale;
        scale = scale * 128;
        i = i + 1;
    }
    Err(DecodeError::InvalidVarint)
}

/// Reads the field key at `pos`.
pub fn read_key(buf: &[u8], pos: usize) -> (r: Result<(u32, WireType, usize), DecodeError>)
    ensures
        match r {
            Ok((tag, wire, next)) => key_at(buf@, pos as int) == Ok::<(u32, WireType, int), DecodeError>(
                (tag, wire, next as int),
            ) && pos < next <= buf.len() && tag >= 1,
            Err(e) => key_at(buf@, pos as int) == Err::<(u32, WireType, int), DecodeError>(e),
        },
{
    let (key, next) = read_varint(buf, pos)?;
    if key > 0xffff_ffff {
        return Err(DecodeError::InvalidKey { key });
    }
    let low: u64 = key % 8;
    let wire = if low == 0 {
        WireType::Varint
    } else if low == 1 {
        WireType::SixtyFourBit
    } else if low == 2 {
        WireType::LengthDelimited
    } else if low == 3 {
        WireType::StartGroup
    } else if low == 4 {
        WireType::EndGroup
    } else if low == 5 {
        WireType::ThirtyTwoBit
    } else {
        return Err(DecodeError::InvalidWireType { value: low });
    };
    let tag: u64 = key / 8;
    if tag == 0 {
        return Err(DecodeError::InvalidTag);
    }
    Ok((tag as u32, wire, next))
}

/// Tells whether a field arrives with the wire type it expects.
pub fn check_wire_type(expected: WireType, actual: WireType) -> (r: Result<(), DecodeError>)
    ensures
        r == expect_wire(expected, actual),
{
    if expected == actual {
        Ok(())
    } else {
        Err(DecodeError::UnexpectedWireType { actual, expected })
    }
}

/// Steps over `len` bytes at `pos`.
pub fn advance(buf: &[u8], pos: usize, len: u64) -> (r: Result<usize, DecodeError>)
    ensures
        moved_as(r, advance_at(buf@, pos as int, len as int)),
        r matches Ok(next) ==> pos <= next <= buf.len() && next == pos + len,
{
    if pos > buf.len() {
        return Err(DecodeError::BufferUnderflow);
    }
    let avail: usize = buf.len() - pos;
    if len > avail as u64 {
        Err(DecodeError::BufferUnderflow)
    } else {
        Ok(pos + len as usize)
    }
}

/// Reads the length at `pos` and finds the payload that it announces.
pub fn read_delimited(buf: &[u8], pos: usize) -> (r: Result<(usize, usize), DecodeError>)
    ensures
        match r {
            Ok((start, end)) => delimited_at(buf@, pos as int) == Ok::<(int, int), DecodeError>(
                (start as int, end as int),
            ) && pos < start <= end <= buf.len(),
            Err(e) => delimited_at(buf@, pos as int) == Err::<(int, int), DecodeError>(e),
        },
{
    let (len, start) = read_varint(buf, pos)?;
    let end = advance(buf, start, len)?;
    Ok((start, end))
}

/// Steps over the payload at `pos` of a field that the message does not
/// know.
pub fn skip_field(buf: &[u8], pos: usize, wire: WireType, tag: u32, budget: u32) -> (r: Result<usize, DecodeError>)
    ensures
        moved_as(r, skip_at(buf@, pos as int, wire, tag, budget as nat)),
        r matches Ok(next) ==> pos <= next <= buf.len(),
    decreases budget, left(buf@, pos as int) + 1,
{
    if budget == 0 {
        return Err(DecodeError::RecursionLimitReached);
    }
    match wire {
        WireType::Varint => {
            let (_, next) = read_varint(buf, pos)?;
            Ok(next)
        },
        WireType::ThirtyTwoBit => advance(buf, pos, 4),
        WireType::SixtyFourBit => advance(buf, pos, 8),
        WireType::LengthDelimited => {
            let (_, end) = read_delimited(buf, pos)?;
            Ok(end)
        },
        WireType::StartGroup => skip_group(buf, pos, tag, budget),
        WireType::EndGroup => Err(DecodeError::UnexpectedEndGroupTag),
    }
}

/// Steps over what is left at `pos` of the group with number `tag`, its end
/// marker included.
pub fn skip_group(buf: &[u8], pos: usize, tag: u32, budget: u32) -> (r: Result<usize, DecodeError>)
    ensures
        moved_as(r, group_end_at(buf@, pos as int, tag, budget as nat)),
        r matches Ok(next) ==> pos < next <= buf.len(),
    decreases budget, left(buf@, pos as int),
{
    let (inner_tag, inner_wire, payload) = read_key(buf, pos)?;
    if inner_wire == WireType::EndGroup {
        if inner_tag != tag {
            return Err(DecodeError::UnexpectedEndGroupTag);
        }
        return Ok(payload);
    }
    if budget == 0 {
        return Err(DecodeError::RecursionLimitReached);
    }
    let next = skip_field(buf, payload, inner_wire, inner_tag, budget - 1)?;
    skip_group(buf, next, tag, budget)
}

/// Reads the eight bytes at `pos` as a little-endian number.
pub fn read_le64(buf: &[u8], pos: usize) -> (r: Result<(u64, usize), DecodeError>)
    ensures
        match r {
            Ok((v, next)) => advance_at(buf@, pos as int, 8) == Ok::<int, DecodeError>(next as int)
                && v == le64_at(buf@, pos as int) && next == pos + 8 && next <= buf.len(),
            Err(e) => advance_at(buf@, pos as int, 8) == Err::<int, DecodeError>(e),
        },
{
    let next = advance(buf, pos, 8)?;
    let v: u64 = buf[pos] as u64 + buf[pos + 1] as u64 * 0x100 + buf[pos + 2] as u64 * 0x1_0000
        + buf[pos + 3] as u64 * 0x100_0000 + buf[pos + 4] as u64 * 0x1_0000_0000 + buf[pos
        + 5] as u64 * 0x100_0000_0000 + buf[pos + 6] as u64 * 0x1_0000_0000_0000 + buf[pos
        + 7] as u64 * 0x100_0000_0000_0000;
    Ok((v, next))
}

} // verus!

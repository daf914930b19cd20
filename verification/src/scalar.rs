//! The numeric field types of the wire format, single and repeated.

use crate::wire::{
    advance_at, check_wire_type, delimited_at, expect_wire, le64_at, lemma_delimited_bounds,
    lemma_varint_bounds, read_as, read_delimited, read_le64, read_varint, varint_at, DecodeError,
    WireType,
};
use vstd::prelude::*;

verus! {

/// A numeric field type: how one value is laid out and what it means.
pub trait Scalar {
    type Value;

    /// The wire type of a single value.
    spec fn wire() -> WireType;

    /// The value whose payload starts at `pos`, and the position behind it.
    spec fn value_at(s: Seq<u8>, pos: int) -> Result<(Self::Value, int), DecodeError>;

    /// A value takes one byte or more of the buffer.
    proof fn lemma_value_bounds(s: Seq<u8>, pos: int)
        requires
            0 <= pos <= s.len(),
        ensures
            Self::value_at(s, pos) matches Ok((_, next)) ==> pos < next <= s.len(),
    ;

    /// The wire type of a single value.
    fn wire_type() -> (w: WireType)
        ensures
            w == Self::wire(),
            w != WireType::LengthDelimited,
    ;

    /// Reads the value whose payload starts at `pos`.
    fn read(buf: &[u8], pos: usize) -> (r: Result<(Self::Value, usize), DecodeError>)
        ensures
            read_as(r, Self::value_at(buf@, pos as int)),
            r matches Ok((_, next)) ==> pos < next <= buf.len(),
    ;
}

/// `uint32`: a varint cut to its low 32 bits.
pub struct UInt32;

/// `uint64`: a varint.
pub struct UInt64;

/// `int32`, and enumerations: a varint whose low 32 bits are read in two's
/// complement.
pub struct Int32;

/// `int64`: a varint read in two's complement.
pub struct Int64;

/// `sint32`: a zigzag varint of 32 bits.
pub struct SInt32;

/// `sint64`: a zigzag varint.
pub struct SInt64;

/// `double`: eight bytes, little-endian, kept as the bits of the IEEE 754
/// number.
pub struct Double;

/// The low 32 bits of a number.
pub open spec fn low32(v: u64) -> int {
    v as int % 0x1_0000_0000
}

/// The signed number that 32 bits stand for in two's complement.
pub open spec fn twos32(v: int) -> int {
    if v < 0x8000_0000 {
        v
    } else {
        v - 0x1_0000_0000
    }
}

/// The signed number that 64 bits stand for in two's complement.
pub open spec fn twos64(v: u64) -> int {
    if v < 0x8000_0000_0000_0000 {
        v as int
    } else {
        v - 0x1_0000_0000_0000_0000
    }
}

/// The zigzag order: 0, -1, 1, -2, 2, ...
pub open spec fn zigzag(v: int) -> int {
    if v % 2 == 0 {
        v / 2
    } else {
        -(v / 2) - 1
    }
}

/// The varint at `pos`, its value mapped by `f`.
pub open spec fn varint_as<T>(s: Seq<u8>, pos: int, f: spec_fn(u64) -> T) -> Result<(T, int), DecodeError> {
    match varint_at(s, pos) {
        Err(e) => Err(e),
        Ok((v, next)) => Ok((f(v), next)),
    }
}

impl Scalar for UInt32 {
    type Value = u32;

    open spec fn wire() -> WireType {
        WireType::Varint
    }

    open spec fn value_at(s: Seq<u8>, pos: int) -> Result<(u32, int), DecodeError> {
        varint_as(s, pos, |v: u64| low32(v) as u32)
    }

    proof fn lemma_value_bounds(s: Seq<u8>, pos: int) {
        lemma_varint_bounds(s, pos);
    }

    fn wire_type() -> (w: WireType) {
        WireType::Varint
    }

    fn read(buf: &[u8], pos: usize) -> (r: Result<(u32, usize), DecodeError>) {
        let (v, next) = read_varint(buf, pos)?;
        Ok(((v % 0x1_0000_0000) as u32, next))
    }
}

impl Scalar for UInt64 {
    type Value = u64;

    open spec fn wire() -> WireType {
        WireType::Varint
    }

    open spec fn value_at(s: Seq<u8>, pos: int) -> Result<(u64, int), DecodeError> {
        varint_as(s, pos, |v: u64| v)
    }

    proof fn lemma_value_bounds(s: Seq<u8>, pos: int) {
        lemma_varint_bounds(s, pos);
    }

    fn wire_type() -> (w: WireType) {
        WireType::Varint
    }

    fn read(buf: &[u8], pos: usize) -> (r: Result<(u64, usize), DecodeError>) {
        read_varint(buf, pos)
    }
}

impl Scalar for Int32 {
    type Value = i32;

    open spec fn wire() -> WireType {
        WireType::Varint
    }

    open spec fn value_at(s: Seq<u8>, pos: int) -> Result<(i32, int), DecodeError> {
        varint_as(s, pos, |v: u64| twos32(low32(v)) as i32)
    }

    proof fn lemma_value_bounds(s: Seq<u8>, pos: int) {
        lemma_varint_bounds(s, pos);
    }

    fn wire_type() -> (w: WireType) {
        WireType::Varint
    }

    fn read(buf: &[u8], pos: usize) -> (r: Result<(i32, usize), DecodeError>) {
        let (v, next) = read_varint(buf, pos)?;
        let low: u64 = v % 0x1_0000_0000;
        let value: i32 = if low < 0x8000_0000 {
            low as i32
        } else {
            ((low - 0x8000_0000) as i32) - 0x7fff_ffff - 1
        };
        Ok((value, next))
    }
}

impl Scalar for Int64 {
    type Value = i64;

    open spec fn wire() -> WireType {
        WireType::Varint
    }

    open spec fn value_at(s: Seq<u8>, pos: int) -> Result<(i64, int), DecodeError> {
        varint_as(s, pos, |v: u64| twos64(v) as i64)
    }

    proof fn lemma_value_bounds(s: Seq<u8>, pos: int) {
        lemma_varint_bounds(s, pos);
    }

    fn wire_type() -> (w: WireType) {
        WireType::Varint
    }

    fn read(buf: &[u8], pos: usize) -> (r: Result<(i64, usize), DecodeError>) {
        let (v, next) = read_varint(buf, pos)?;
        let value: i64 = if v < 0x8000_0000_0000_0000 {
            v as i64
        } else {
            ((v - 0x8000_0000_0000_0000) as i64) - 0x7fff_ffff_ffff_ffff - 1
        };
        Ok((value, next))
    }
}

impl Scalar for SInt32 {
    type Value = i32;

    open spec fn wire() -> WireType {
        WireType::Varint
    }

    open spec fn value_at(s: Seq<u8>, pos: int) -> Result<(i32, int), DecodeError> {
        varint_as(s, pos, |v: u64| zigzag(low32(v)) as i32)
    }

    proof fn lemma_value_bounds(s: Seq<u8>, pos: int) {
        lemma_varint_bounds(s, pos);
    }

    fn wire_type() -> (w: WireType) {
        WireType::Varint
    }

    fn read(buf: &[u8], pos: usize) -> (r: Result<(i32, usize), DecodeError>) {
        let (v, next) = read_varint(buf, pos)?;
        let low: u64 = v % 0x1_0000_0000;
        let half: i32 = (low / 2) as i32;
        let value: i32 = if low % 2 == 0 {
            half
        } else {
            -half - 1
        };
        Ok((value, next))
    }
}

impl Scalar for SInt64 {
    type Value = i64;

    open spec fn wire() -> WireType {
        WireType::Varint
    }

    open spec fn value_at(s: Seq<u8>, pos: int) -> Result<(i64, int), DecodeError> {
        varint_as(s, pos, |v: u64| zigzag(v as int) as i64)
    }

    proof fn lemma_value_bounds(s: Seq<u8>, pos: int) {
        lemma_varint_bounds(s, pos);
    }

    fn wire_type() -> (w: WireType) {
        WireType::Varint
    }

    fn read(buf: &[u8], pos: usize) -> (r: Result<(i64, usize), DecodeError>) {
        let (v, next) = read_varint(buf, pos)?;
        let half: i64 = (v / 2) as i64;
        let value: i64 = if v % 2 == 0 {
            half
        } else {
            -half - 1
        };
        Ok((value, next))
    }
}

impl Scalar for Double {
    type Value = u64;

    open spec fn wire() -> WireType {
        WireType::SixtyFourBit
    }

    open spec fn value_at(s: Seq<u8>, pos: int) -> Result<(u64, int), DecodeError> {
        match advance_at(s, pos, 8) {
            Err(e) => Err(e),
            Ok(next) => Ok((le64_at(s, pos), next)),
        }
    }

    proof fn lemma_value_bounds(s: Seq<u8>, pos: int) {
    }

    fn wire_type() -> (w: WireType) {
        WireType::SixtyFourBit
    }

    fn read(buf: &[u8], pos: usize) -> (r: Result<(u64, usize), DecodeError>) {
        read_le64(buf, pos)
    }
}

/// A single field of the type `S` that arrives with the wire type `wire`.
pub open spec fn scalar_at<S: Scalar>(s: Seq<u8>, pos: int, wire: WireType) -> Result<(S::Value, int), DecodeError> {
    match expect_wire(S::wire(), wire) {
        Err(e) => Err(e),
        Ok(_) => S::value_at(s, pos),
    }
}

/// The values packed between `pos` and `limit`, appended to `acc`, and the
/// position behind the last of them, which lies behind `limit` where that
/// value runs over it. Every value takes a byte or more
/// (`lemma_value_bounds`), so the last branch is never taken.
pub open spec fn packed_from<S: Scalar>(acc: Seq<S::Value>, s: Seq<u8>, pos: int, limit: int) -> Result<(Seq<S::Value>, int), DecodeError>
    decreases limit - pos,
{
    if pos >= limit {
        Ok((acc, pos))
    } else {
        match S::value_at(s, pos) {
            Err(e) => Err(e),
            Ok((v, next)) => {
                if pos < next <= limit {
                    packed_from::<S>(acc.push(v), s, next, limit)
                } else if pos < next {
                    Ok((acc.push(v), next))
                } else {
                    Err(DecodeError::BufferUnderflow)
                }
            },
        }
    }
}

/// The payload that `pos` announces, where what was read of it ended at
/// its end.
pub open spec fn closed_at<T>(end: int, r: Result<(T, int), DecodeError>) -> Result<(T, int), DecodeError> {
    match r {
        Err(e) => Err(e),
        Ok((v, stop)) => {
            if stop != end {
                Err(DecodeError::DelimitedLengthExceeded)
            } else {
                Ok((v, stop))
            }
        },
    }
}

/// A repeated field of the type `S`: one value, or a length-delimited run
/// of values, appended to `acc`.
pub open spec fn repeated_at<S: Scalar>(acc: Seq<S::Value>, s: Seq<u8>, pos: int, wire: WireType) -> Result<(Seq<S::Value>, int), DecodeError> {
    if wire == WireType::LengthDelimited {
        match delimited_at(s, pos) {
            Err(e) => Err(e),
            Ok((start, end)) => closed_at(end, packed_from::<S>(acc, s, start, end)),
        }
    } else {
        match scalar_at::<S>(s, pos, wire) {
            Err(e) => Err(e),
            Ok((v, next)) => Ok((acc.push(v), next)),
        }
    }
}

/// A packed run of values ends behind where it began, inside the buffer,
/// and not before its limit.
pub proof fn lemma_packed_bounds<S: Scalar>(acc: Seq<S::Value>, s: Seq<u8>, pos: int, limit: int)
    requires
        0 <= pos <= s.len(),
        limit <= s.len(),
    ensures
        packed_from::<S>(acc, s, pos, limit) matches Ok((_, next)) ==> pos <= next <= s.len() && limit <= next,
    decreases limit - pos,
{
    if pos < limit {
        S::lemma_value_bounds(s, pos);
        match S::value_at(s, pos) {
            Err(_) => {},
            Ok((v, next)) => {
                if next <= limit {
                    lemma_packed_bounds::<S>(acc.push(v), s, next, limit);
                }
            },
        }
    }
}

/// A repeated field takes one byte or more of the buffer.
pub proof fn lemma_repeated_bounds<S: Scalar>(acc: Seq<S::Value>, s: Seq<u8>, pos: int, wire: WireType)
    requires
        0 <= pos <= s.len(),
    ensures
        repeated_at::<S>(acc, s, pos, wire) matches Ok((_, next)) ==> pos < next <= s.len(),
{
    if wire == WireType::LengthDelimited {
        lemma_delimited_bounds(s, pos);
        match delimited_at(s, pos) {
            Err(_) => {},
            Ok((start, end)) => {
                lemma_packed_bounds::<S>(acc, s, start, end);
            },
        }
    } else {
        S::lemma_value_bounds(s, pos);
    }
}

/// A single field takes one byte or more of the buffer.
pub proof fn lemma_scalar_bounds<S: Scalar>(s: Seq<u8>, pos: int, wire: WireType)
    requires
        0 <= pos <= s.len(),
    ensures
        scalar_at::<S>(s, pos, wire) matches Ok((_, next)) ==> pos < next <= s.len(),
{
    S::lemma_value_bounds(s, pos);
}

/// Reads a single field of the type `S`.
pub fn read_scalar<S: Scalar>(buf: &[u8], pos: usize, wire: WireType) -> (r: Result<(S::Value, usize), DecodeError>)
    ensures
        read_as(r, scalar_at::<S>(buf@, pos as int, wire)),
        r matches Ok((_, next)) ==> pos < next <= buf.len(),
{
    check_wire_type(S::wire_type(), wire)?;
    S::read(buf, pos)
}

/// Reads a repeated field of the type `S`, packed or not, and appends its
/// values to `values`.
pub fn read_repeated<S: Scalar>(values: &mut Vec<S::Value>, buf: &[u8], pos: usize, wire: WireType) -> (r: Result<usize, DecodeError>)
    ensures
        match r {
            Ok(next) => repeated_at::<S>(old(values)@, buf@, pos as int, wire) == Ok::<(Seq<S::Value>, int), DecodeError>(
                (final(values)@, next as int),
            ) && pos < next <= buf.len(),
            Err(e) => repeated_at::<S>(old(values)@, buf@, pos as int, wire) == Err::<(Seq<S::Value>, int), DecodeError>(e),
        },
{
    if wire == WireType::LengthDelimited {
        let (start, end) = read_delimited(buf, pos)?;
        let mut at: usize = start;
        while at < end
            invariant
                start <= at <= buf.len(),
                end <= buf.len(),
                delimited_at(buf@, pos as int) == Ok::<(int, int), DecodeError>((start as int, end as int)),
                pos < start,
                wire == WireType::LengthDelimited,
                packed_from::<S>(values@, buf@, at as int, end as int) == packed_from::<S>(
                    old(values)@,
                    buf@,
                    start as int,
                    end as int,
                ),
            decreases buf.len() - at,
        {
            let (v, next) = S::read(buf, at)?;
            values.push(v);
            at = next;
        }
        if at != end {
            return Err(DecodeError::DelimitedLengthExceeded);
        }
        Ok(at)
    } else {
        let (v, next) = read_scalar::<S>(buf, pos, wire)?;
        values.push(v);
        Ok(next)
    }
}

} // verus!

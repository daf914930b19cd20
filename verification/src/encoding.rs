//! How values are written in the wire format, and that what is written is
//! read back as it was.
//!
//! A value has many encodings; the one described here is the short one
//! that writers produce: fields in the order of their numbers, repeated
//! numbers packed, and what has its default value left out.

use crate::message::{fields_from, message_at, string_at, WireMessage};
use crate::remote_write::{mapped, views_of};
use crate::scalar::{
    low32, packed_from, repeated_at, scalar_at, twos32, twos64, zigzag, Double, Int32, Int64, SInt32,
    SInt64, Scalar, UInt32, UInt64,
};
use crate::wire::{
    key_at, le64_at, lemma_pow128_values, pow128, varint_at, varint_from, wire_type_of,
    DecodeError, WireType,
};
use vstd::prelude::*;
use vstd::string::{StrSliceExecFns, StringSliceAdditionalSpecFns};
use vstd::utf8::{encode_utf8, encode_utf8_decode_utf8, encode_utf8_valid_utf8};

verus! {

/// That `s` holds `bytes` from `pos` on.
#[verifier::opaque]
pub open spec fn holds_at(s: Seq<u8>, pos: int, bytes: Seq<u8>) -> bool {
    &&& 0 <= pos
    &&& pos + bytes.len() <= s.len()
    &&& forall|i: int| 0 <= i < bytes.len() ==> s[pos + i] == bytes[i]
}

/// What is held lies inside the buffer.
pub proof fn lemma_holds_bounds(s: Seq<u8>, pos: int, bytes: Seq<u8>)
    requires
        holds_at(s, pos, bytes),
    ensures
        0 <= pos,
        pos + bytes.len() <= s.len(),
{
    reveal(holds_at);
}

/// A run of bytes is held where its two halves are held one behind the
/// other.
pub proof fn lemma_holds_split(s: Seq<u8>, pos: int, a: Seq<u8>, b: Seq<u8>)
    ensures
        holds_at(s, pos, a + b) <==> holds_at(s, pos, a) && holds_at(s, pos + a.len(), b),
{
    reveal(holds_at);
    if holds_at(s, pos, a + b) {
        assert forall|i: int| 0 <= i < a.len() implies s[pos + i] == a[i] by {
            assert((a + b)[i] == a[i]);
        }
        assert forall|i: int| 0 <= i < b.len() implies s[pos + a.len() + i] == b[i] by {
            assert((a + b)[a.len() + i] == b[i]);
        }
    }
    if holds_at(s, pos, a) && holds_at(s, pos + a.len(), b) {
        assert forall|i: int| 0 <= i < (a + b).len() implies s[pos + i] == (a + b)[i] by {
            if i >= a.len() {
                assert(s[pos + a.len() + (i - a.len())] == b[i - a.len()]);
            }
        }
    }
}

/// A number as a varint: seven bits to a byte, the low ones first, and the
/// high bit set on every byte but the last.
pub open spec fn varint_bytes(v: nat) -> Seq<u8>
    decreases v,
{
    if v < 128 {
        seq![v as u8]
    } else {
        seq![(128 + v % 128) as u8] + varint_bytes(v / 128)
    }
}

proof fn lemma_varint_from_round_trip(s: Seq<u8>, pos: int, i: nat, acc: int, rest: nat)
    requires
        i <= 9,
        0 <= pos,
        0 <= acc,
        acc + rest * pow128(i) <= u64::MAX,
        holds_at(s, pos + i, varint_bytes(rest)),
    ensures
        varint_from(s, pos, i, acc) == Ok::<(u64, int), DecodeError>(
            ((acc + rest * pow128(i)) as u64, pos + i + varint_bytes(rest).len()),
        ),
    decreases rest,
{
    reveal(holds_at);
    lemma_pow128_values();
    let p = pow128(i);
    assert(p >= 1);
    assert(rest <= rest * p) by (nonlinear_arith)
        requires
            p >= 1,
            rest >= 0,
    ;
    let bytes = varint_bytes(rest);
    assert(s[pos + i + 0] == bytes[0]);
    if rest < 128 {
        if i == 9 {
            assert(rest * p <= u64::MAX);
            assert(p == 0x8000_0000_0000_0000);
            assert(rest < 2) by (nonlinear_arith)
                requires
                    rest * p <= 0xffff_ffff_ffff_ffff,
                    p == 0x8000_0000_0000_0000,
                    rest >= 0,
            ;
        }
    } else {
        let low = rest % 128;
        let high = rest / 128;
        assert(bytes =~= seq![(128 + low) as u8] + varint_bytes(high));
        lemma_holds_split(s, pos + i, seq![(128 + low) as u8], varint_bytes(high));
        assert(pow128(i + 1) == 128 * p);
        assert(low * p + high * (128 * p) == rest * p) by (nonlinear_arith)
            requires
                rest == 128 * high + low,
        ;
        if i == 9 {
            assert(128 * p <= rest * p) by (nonlinear_arith)
                requires
                    rest >= 128,
                    p >= 0,
            ;
            assert(false);
        }
        assert(low * p >= 0) by (nonlinear_arith)
            requires
                low >= 0,
                p >= 0,
        ;
        lemma_varint_from_round_trip(s, pos, i + 1, acc + low * p, high);
        assert(s[pos + i] == (128 + low) as u8);
        assert(s[pos + i] - 128 == low);
        assert(varint_from(s, pos, i, acc) == varint_from(s, pos, i + 1, acc + (s[pos + i] - 128) * pow128(i)));
        assert(varint_bytes(rest).len() == 1 + varint_bytes(high).len());
    }
}

/// A varint is read back as the number that was written.
pub proof fn lemma_varint_round_trip(s: Seq<u8>, pos: int, v: u64)
    requires
        holds_at(s, pos, varint_bytes(v as nat)),
    ensures
        varint_at(s, pos) == Ok::<(u64, int), DecodeError>((v, pos + varint_bytes(v as nat).len())),
{
    reveal(holds_at);
    lemma_pow128_values();
    lemma_varint_from_round_trip(s, pos, 0, 0, v as nat);
}

/// The number that stands for a wire type in a key.
pub open spec fn wire_number(wire: WireType) -> nat {
    match wire {
        WireType::Varint => 0,
        WireType::SixtyFourBit => 1,
        WireType::LengthDelimited => 2,
        WireType::StartGroup => 3,
        WireType::EndGroup => 4,
        WireType::ThirtyTwoBit => 5,
    }
}

/// The key of a field.
pub open spec fn key_bytes(tag: u32, wire: WireType) -> Seq<u8> {
    varint_bytes(tag as nat * 8 + wire_number(wire))
}

/// A key is read back as the field number and wire type that were
/// written, for every field number that the format allows.
pub proof fn lemma_key_round_trip(s: Seq<u8>, pos: int, tag: u32, wire: WireType)
    requires
        1 <= tag < 0x2000_0000,
        holds_at(s, pos, key_bytes(tag, wire)),
    ensures
        key_at(s, pos) == Ok::<(u32, WireType, int), DecodeError>((tag, wire, pos + key_bytes(tag, wire).len())),
{
    let key: u64 = (tag as nat * 8 + wire_number(wire)) as u64;
    lemma_varint_round_trip(s, pos, key);
    assert(key % 8 == wire_number(wire));
    assert(key / 8 == tag);
    assert(wire_type_of((key % 8) as u64) == Some(wire));
}

/// Appends a number as a varint.
pub fn push_varint(out: &mut Vec<u8>, v: u64)
    ensures
        final(out)@ == old(out)@ + varint_bytes(v as nat),
{
    let mut rest: u64 = v;
    while rest >= 128
        invariant
            old(out)@ + varint_bytes(v as nat) == out@ + varint_bytes(rest as nat),
        decreases rest,
    {
        let ghost before = out@;
        out.push((128 + rest % 128) as u8);
        assert(before + varint_bytes(rest as nat) =~= out@ + varint_bytes((rest / 128) as nat));
        rest = rest / 128;
    }
    let ghost before = out@;
    out.push(rest as u8);
    assert(before + varint_bytes(rest as nat) =~= out@);
}

/// Appends the key of a field.
pub fn push_key(out: &mut Vec<u8>, tag: u32, wire: WireType)
    ensures
        final(out)@ == old(out)@ + key_bytes(tag, wire),
{
    let number: u64 = match wire {
        WireType::Varint => 0,
        WireType::SixtyFourBit => 1,
        WireType::LengthDelimited => 2,
        WireType::StartGroup => 3,
        WireType::EndGroup => 4,
        WireType::ThirtyTwoBit => 5,
    };
    push_varint(out, tag as u64 * 8 + number);
}

/// The 64 bits that stand for a signed number in two's complement.
pub fn two_complement(v: i64) -> (bits: u64)
    ensures
        bits == unsigned64(v as int),
{
    if v >= 0 {
        v as u64
    } else {
        (v + 0x7fff_ffff_ffff_ffff + 1) as u64 + 0x8000_0000_0000_0000
    }
}

/// The place of a signed number in the zigzag order.
pub fn zigzag_place(v: i64) -> (place: u64)
    ensures
        place == zigzag_rank(v as int),
{
    if v >= 0 {
        v as u64 * 2
    } else {
        (-(v + 1)) as u64 * 2 + 1
    }
}

/// A numeric field type with the way its values are written.
pub trait ScalarEncoding: Scalar {
    /// The payload that holds `v`.
    spec fn encoded(v: Self::Value) -> Seq<u8>;

    /// A value is read back as it was written.
    proof fn lemma_value_round_trip(s: Seq<u8>, pos: int, v: Self::Value)
        requires
            holds_at(s, pos, Self::encoded(v)),
        ensures
            Self::encoded(v).len() >= 1,
            Self::value_at(s, pos) == Ok::<(Self::Value, int), DecodeError>((v, pos + Self::encoded(v).len())),
    ;

    /// Appends the payload that holds `v`.
    fn write(out: &mut Vec<u8>, v: &Self::Value)
        ensures
            final(out)@ == old(out)@ + Self::encoded(*v),
    ;
}

/// The 64 bits that stand for a signed number in two's complement.
pub open spec fn unsigned64(v: int) -> nat {
    if v >= 0 {
        v as nat
    } else {
        (v + 0x1_0000_0000_0000_0000) as nat
    }
}

/// The place of a signed number in the zigzag order.
pub open spec fn zigzag_rank(v: int) -> nat {
    if v >= 0 {
        (2 * v) as nat
    } else {
        (-2 * v - 1) as nat
    }
}

/// A number as eight bytes, the low ones first.
pub open spec fn le64_bytes(v: u64) -> Seq<u8> {
    let q1 = v / 0x100;
    let q2 = q1 / 0x100;
    let q3 = q2 / 0x100;
    let q4 = q3 / 0x100;
    let q5 = q4 / 0x100;
    let q6 = q5 / 0x100;
    let q7 = q6 / 0x100;
    seq![
        (v % 0x100) as u8,
        (q1 % 0x100) as u8,
        (q2 % 0x100) as u8,
        (q3 % 0x100) as u8,
        (q4 % 0x100) as u8,
        (q5 % 0x100) as u8,
        (q6 % 0x100) as u8,
        (q7 % 0x100) as u8,
    ]
}

impl ScalarEncoding for UInt32 {
    open spec fn encoded(v: u32) -> Seq<u8> {
        varint_bytes(v as nat)
    }

    proof fn lemma_value_round_trip(s: Seq<u8>, pos: int, v: u32) {
        lemma_varint_round_trip(s, pos, v as u64);
    }

    fn write(out: &mut Vec<u8>, v: &u32) {
        push_varint(out, *v as u64);
    }
}

impl ScalarEncoding for UInt64 {
    open spec fn encoded(v: u64) -> Seq<u8> {
        varint_bytes(v as nat)
    }

    proof fn lemma_value_round_trip(s: Seq<u8>, pos: int, v: u64) {
        lemma_varint_round_trip(s, pos, v);
    }

    fn write(out: &mut Vec<u8>, v: &u64) {
        push_varint(out, *v);
    }
}

impl ScalarEncoding for Int32 {
    open spec fn encoded(v: i32) -> Seq<u8> {
        varint_bytes(unsigned64(v as int))
    }

    proof fn lemma_value_round_trip(s: Seq<u8>, pos: int, v: i32) {
        let wide = unsigned64(v as int) as u64;
        lemma_varint_round_trip(s, pos, wide);
        assert(twos32(low32(wide)) == v);
    }

    fn write(out: &mut Vec<u8>, v: &i32) {
        push_varint(out, two_complement(*v as i64));
    }
}

impl ScalarEncoding for Int64 {
    open spec fn encoded(v: i64) -> Seq<u8> {
        varint_bytes(unsigned64(v as int))
    }

    proof fn lemma_value_round_trip(s: Seq<u8>, pos: int, v: i64) {
        let wide = unsigned64(v as int) as u64;
        lemma_varint_round_trip(s, pos, wide);
        assert(twos64(wide) == v);
    }

    fn write(out: &mut Vec<u8>, v: &i64) {
        push_varint(out, two_complement(*v));
    }
}

impl ScalarEncoding for SInt32 {
    open spec fn encoded(v: i32) -> Seq<u8> {
        varint_bytes(zigzag_rank(v as int))
    }

    proof fn lemma_value_round_trip(s: Seq<u8>, pos: int, v: i32) {
        let rank = zigzag_rank(v as int) as u64;
        lemma_varint_round_trip(s, pos, rank);
        assert(zigzag(low32(rank)) == v);
    }

    fn write(out: &mut Vec<u8>, v: &i32) {
        push_varint(out, zigzag_place(*v as i64));
    }
}

impl ScalarEncoding for SInt64 {
    open spec fn encoded(v: i64) -> Seq<u8> {
        varint_bytes(zigzag_rank(v as int))
    }

    proof fn lemma_value_round_trip(s: Seq<u8>, pos: int, v: i64) {
        let rank = zigzag_rank(v as int) as u64;
        lemma_varint_round_trip(s, pos, rank);
        assert(zigzag(rank as int) == v);
    }

    fn write(out: &mut Vec<u8>, v: &i64) {
        push_varint(out, zigzag_place(*v));
    }
}

impl ScalarEncoding for Double {
    open spec fn encoded(v: u64) -> Seq<u8> {
        le64_bytes(v)
    }

    proof fn lemma_value_round_trip(s: Seq<u8>, pos: int, v: u64) {
        reveal(holds_at);
        let bytes = le64_bytes(v);
        let q1 = v / 0x100;
        let q2 = q1 / 0x100;
        let q3 = q2 / 0x100;
        let q4 = q3 / 0x100;
        let q5 = q4 / 0x100;
        let q6 = q5 / 0x100;
        let q7 = q6 / 0x100;
        assert(s[pos + 0] == bytes[0] == v % 0x100);
        assert(s[pos + 1] == bytes[1] == q1 % 0x100);
        assert(s[pos + 2] == bytes[2] == q2 % 0x100);
        assert(s[pos + 3] == bytes[3] == q3 % 0x100);
        assert(s[pos + 4] == bytes[4] == q4 % 0x100);
        assert(s[pos + 5] == bytes[5] == q5 % 0x100);
        assert(s[pos + 6] == bytes[6] == q6 % 0x100);
        assert(s[pos + 7] == bytes[7] == q7 % 0x100);
        assert(q7 < 0x100);
        assert(v == s[pos + 0] + 0x100 * q1);
        assert(q1 == s[pos + 1] + 0x100 * q2);
        assert(q2 == s[pos + 2] + 0x100 * q3);
        assert(q3 == s[pos + 3] + 0x100 * q4);
        assert(q4 == s[pos + 4] + 0x100 * q5);
        assert(q5 == s[pos + 5] + 0x100 * q6);
        assert(q6 == s[pos + 6] + 0x100 * q7);
        assert(q7 == s[pos + 7]);
        assert(le64_at(s, pos) == v);
    }

    fn write(out: &mut Vec<u8>, v: &u64) {
        let q0: u64 = *v;
        let q1: u64 = q0 / 0x100;
        let q2: u64 = q1 / 0x100;
        let q3: u64 = q2 / 0x100;
        let q4: u64 = q3 / 0x100;
        let q5: u64 = q4 / 0x100;
        let q6: u64 = q5 / 0x100;
        let q7: u64 = q6 / 0x100;
        out.push((q0 % 0x100) as u8);
        out.push((q1 % 0x100) as u8);
        out.push((q2 % 0x100) as u8);
        out.push((q3 % 0x100) as u8);
        out.push((q4 % 0x100) as u8);
        out.push((q5 % 0x100) as u8);
        out.push((q6 % 0x100) as u8);
        out.push((q7 % 0x100) as u8);
        assert(final(out)@ =~= old(out)@ + le64_bytes(*v));
    }
}

/// A single field: its key and its payload.
pub open spec fn scalar_field_bytes<S: ScalarEncoding>(tag: u32, v: S::Value) -> Seq<u8> {
    key_bytes(tag, S::wire()) + S::encoded(v)
}

/// A single field is read back as it was written.
pub proof fn lemma_scalar_field<S: ScalarEncoding>(s: Seq<u8>, pos: int, tag: u32, v: S::Value)
    requires
        1 <= tag < 0x2000_0000,
        holds_at(s, pos, scalar_field_bytes::<S>(tag, v)),
    ensures
        key_at(s, pos) == Ok::<(u32, WireType, int), DecodeError>((tag, S::wire(), pos + key_bytes(tag, S::wire()).len())),
        scalar_at::<S>(s, pos + key_bytes(tag, S::wire()).len(), S::wire()) == Ok::<(S::Value, int), DecodeError>(
            (v, pos + scalar_field_bytes::<S>(tag, v).len()),
        ),
        key_bytes(tag, S::wire()).len() >= 1,
{
    lemma_holds_split(s, pos, key_bytes(tag, S::wire()), S::encoded(v));
    lemma_key_round_trip(s, pos, tag, S::wire());
    S::lemma_value_round_trip(s, pos + key_bytes(tag, S::wire()).len(), v);
}

/// The payloads of a run of values, one behind the other.
pub open spec fn packed_bytes<S: ScalarEncoding>(values: Seq<S::Value>) -> Seq<u8>
    decreases values.len(),
{
    if values.len() == 0 {
        Seq::empty()
    } else {
        S::encoded(values.first()) + packed_bytes::<S>(values.drop_first())
    }
}

/// A packed run of values is read back as it was written, behind what was
/// read before.
pub proof fn lemma_packed_round_trip<S: ScalarEncoding>(acc: Seq<S::Value>, s: Seq<u8>, pos: int, values: Seq<S::Value>)
    requires
        holds_at(s, pos, packed_bytes::<S>(values)),
    ensures
        packed_from::<S>(acc, s, pos, pos + packed_bytes::<S>(values).len()) == Ok::<(Seq<S::Value>, int), DecodeError>(
            (acc + values, pos + packed_bytes::<S>(values).len()),
        ),
    decreases values.len(),
{
    if values.len() == 0 {
        assert(acc + values =~= acc);
    } else {
        let head = S::encoded(values.first());
        let tail = packed_bytes::<S>(values.drop_first());
        lemma_holds_split(s, pos, head, tail);
        S::lemma_value_round_trip(s, pos, values.first());
        lemma_packed_round_trip::<S>(acc.push(values.first()), s, pos + head.len(), values.drop_first());
        assert(acc.push(values.first()) + values.drop_first() =~= acc + values);
    }
}

/// A repeated field: nothing where it has no values, and otherwise one
/// length-delimited run of them.
pub open spec fn repeated_bytes<S: ScalarEncoding>(tag: u32, values: Seq<S::Value>) -> Seq<u8> {
    if values.len() == 0 {
        Seq::empty()
    } else {
        key_bytes(tag, WireType::LengthDelimited) + varint_bytes(packed_bytes::<S>(values).len()) + packed_bytes::<S>(
            values,
        )
    }
}

/// A repeated field with values is read back as it was written, behind
/// what was read before.
pub proof fn lemma_repeated_field<S: ScalarEncoding>(acc: Seq<S::Value>, s: Seq<u8>, pos: int, tag: u32, values: Seq<S::Value>)
    requires
        1 <= tag < 0x2000_0000,
        values.len() > 0,
        packed_bytes::<S>(values).len() <= u64::MAX,
        holds_at(s, pos, repeated_bytes::<S>(tag, values)),
    ensures
        key_at(s, pos) == Ok::<(u32, WireType, int), DecodeError>(
            (tag, WireType::LengthDelimited, pos + key_bytes(tag, WireType::LengthDelimited).len()),
        ),
        repeated_at::<S>(acc, s, pos + key_bytes(tag, WireType::LengthDelimited).len(), WireType::LengthDelimited)
            == Ok::<(Seq<S::Value>, int), DecodeError>((acc + values, pos + repeated_bytes::<S>(tag, values).len())),
        key_bytes(tag, WireType::LengthDelimited).len() >= 1,
{
    let key = key_bytes(tag, WireType::LengthDelimited);
    let packed = packed_bytes::<S>(values);
    let len = varint_bytes(packed.len());
    lemma_holds_bounds(s, pos, repeated_bytes::<S>(tag, values));
    lemma_holds_split(s, pos, key + len, packed);
    lemma_holds_split(s, pos, key, len);
    lemma_key_round_trip(s, pos, tag, WireType::LengthDelimited);
    lemma_varint_round_trip(s, pos + key.len(), packed.len() as u64);
    lemma_packed_round_trip::<S>(acc, s, pos + key.len() + len.len(), values);
}

/// A message type with the way its values are written.
pub trait MessageEncoding: WireMessage {
    /// The fields that hold `v`, in the order of their numbers.
    spec fn encoding(v: Self::V) -> Seq<u8>;

    /// How deep messages are embedded in a message of this type.
    spec fn depth() -> nat;

    /// A message is read back as it was written.
    proof fn lemma_round_trip(v: Self::V, s: Seq<u8>, pos: int, budget: nat)
        requires
            holds_at(s, pos, Self::encoding(v)),
            Self::encoding(v).len() <= u64::MAX,
            budget >= Self::depth(),
        ensures
            fields_from::<Self>(Self::blank(), s, pos, pos + Self::encoding(v).len(), budget) == Ok::<(Self::V, int), DecodeError>(
                (v, pos + Self::encoding(v).len()),
            ),
    ;

    /// Appends the fields that hold the message.
    fn encode_into(&self, out: &mut Vec<u8>)
        ensures
            final(out)@ == old(out)@ + Self::encoding(self@),
    ;
}

/// An embedded message that is written only where there is one.
pub open spec fn optional_message_bytes<M: MessageEncoding>(tag: u32, v: Option<M::V>) -> Seq<u8> {
    match v {
        Some(inner) => message_field_bytes::<M>(tag, inner),
        None => Seq::empty(),
    }
}

/// A single field that is written only where `present` says so.
pub open spec fn optional_bytes<S: ScalarEncoding>(tag: u32, v: S::Value, present: bool) -> Seq<u8> {
    if present {
        scalar_field_bytes::<S>(tag, v)
    } else {
        Seq::empty()
    }
}

/// An embedded message: its key, its length and its fields.
pub open spec fn message_field_bytes<M: MessageEncoding>(tag: u32, v: M::V) -> Seq<u8> {
    key_bytes(tag, WireType::LengthDelimited) + varint_bytes(M::encoding(v).len()) + M::encoding(v)
}

/// A run of embedded messages under one field number.
pub open spec fn messages_bytes<M: MessageEncoding>(tag: u32, list: Seq<M::V>) -> Seq<u8>
    decreases list.len(),
{
    if list.len() == 0 {
        Seq::empty()
    } else {
        message_field_bytes::<M>(tag, list.first()) + messages_bytes::<M>(tag, list.drop_first())
    }
}

/// A string field: its key, the length of its UTF-8 form, and that form.
pub open spec fn string_field_bytes(tag: u32, text: Seq<char>) -> Seq<u8> {
    key_bytes(tag, WireType::LengthDelimited) + varint_bytes(encode_utf8(text).len()) + encode_utf8(text)
}

/// A run of string fields under one field number.
pub open spec fn strings_bytes(tag: u32, list: Seq<Seq<char>>) -> Seq<u8>
    decreases list.len(),
{
    if list.len() == 0 {
        Seq::empty()
    } else {
        string_field_bytes(tag, list.first()) + strings_bytes(tag, list.drop_first())
    }
}

/// Reading goes on behind an optional single field with that field taken
/// in, where the message puts the field's value by `put`.
pub proof fn lemma_optional_step<M: WireMessage, S: ScalarEncoding>(
    acc: M::V,
    put: spec_fn(S::Value) -> M::V,
    s: Seq<u8>,
    pos: int,
    limit: int,
    budget: nat,
    tag: u32,
    v: S::Value,
    present: bool,
)
    requires
        1 <= tag < 0x2000_0000,
        holds_at(s, pos, optional_bytes::<S>(tag, v, present)),
        pos + optional_bytes::<S>(tag, v, present).len() <= limit,
        forall|p: int| #[trigger]
            M::with_field(acc, s, p, tag, S::wire(), budget) == mapped(scalar_at::<S>(s, p, S::wire()), put),
    ensures
        fields_from::<M>(acc, s, pos, limit, budget) == fields_from::<M>(
            if present {
                put(v)
            } else {
                acc
            },
            s,
            pos + optional_bytes::<S>(tag, v, present).len(),
            limit,
            budget,
        ),
{
    if present {
        lemma_scalar_field::<S>(s, pos, tag, v);
        let payload = pos + key_bytes(tag, S::wire()).len();
        assert(M::with_field(acc, s, payload, tag, S::wire(), budget) == mapped(
            scalar_at::<S>(s, payload, S::wire()),
            put,
        ));
    }
}

/// Reading goes on behind a packed repeated field with its values taken
/// in, where the message appends the field's values to `before` and puts
/// the list by `put`.
pub proof fn lemma_repeated_step<M: WireMessage, S: ScalarEncoding>(
    acc: M::V,
    before: Seq<S::Value>,
    put: spec_fn(Seq<S::Value>) -> M::V,
    s: Seq<u8>,
    pos: int,
    limit: int,
    budget: nat,
    tag: u32,
    values: Seq<S::Value>,
)
    requires
        1 <= tag < 0x2000_0000,
        holds_at(s, pos, repeated_bytes::<S>(tag, values)),
        pos + repeated_bytes::<S>(tag, values).len() <= limit,
        repeated_bytes::<S>(tag, values).len() <= u64::MAX,
        put(before) == acc,
        forall|p: int| #[trigger]
            M::with_field(acc, s, p, tag, WireType::LengthDelimited, budget) == mapped(
                repeated_at::<S>(before, s, p, WireType::LengthDelimited),
                put,
            ),
    ensures
        fields_from::<M>(acc, s, pos, limit, budget) == fields_from::<M>(
            put(before + values),
            s,
            pos + repeated_bytes::<S>(tag, values).len(),
            limit,
            budget,
        ),
{
    if values.len() > 0 {
        lemma_repeated_field::<S>(before, s, pos, tag, values);
        let payload = pos + key_bytes(tag, WireType::LengthDelimited).len();
        assert(M::with_field(acc, s, payload, tag, WireType::LengthDelimited, budget) == mapped(
            repeated_at::<S>(before, s, payload, WireType::LengthDelimited),
            put,
        ));
    } else {
        assert(before + values =~= before);
    }
}

/// An embedded message is read back as it was written.
pub proof fn lemma_message_field<M: MessageEncoding>(s: Seq<u8>, pos: int, tag: u32, v: M::V, budget: nat)
    requires
        1 <= tag < 0x2000_0000,
        holds_at(s, pos, message_field_bytes::<M>(tag, v)),
        M::encoding(v).len() <= u64::MAX,
        budget > M::depth(),
    ensures
        key_at(s, pos) == Ok::<(u32, WireType, int), DecodeError>(
            (tag, WireType::LengthDelimited, pos + key_bytes(tag, WireType::LengthDelimited).len()),
        ),
        message_at::<M>(
            M::blank(),
            s,
            pos + key_bytes(tag, WireType::LengthDelimited).len(),
            WireType::LengthDelimited,
            budget,
        ) == Ok::<(M::V, int), DecodeError>((v, pos + message_field_bytes::<M>(tag, v).len())),
        key_bytes(tag, WireType::LengthDelimited).len() >= 1,
{
    let key = key_bytes(tag, WireType::LengthDelimited);
    let body = M::encoding(v);
    let len = varint_bytes(body.len());
    lemma_holds_bounds(s, pos, message_field_bytes::<M>(tag, v));
    lemma_holds_split(s, pos, key + len, body);
    lemma_holds_split(s, pos, key, len);
    lemma_key_round_trip(s, pos, tag, WireType::LengthDelimited);
    lemma_varint_round_trip(s, pos + key.len(), body.len() as u64);
    M::lemma_round_trip(v, s, pos + key.len() + len.len(), (budget - 1) as nat);
}

/// Reading goes on behind an embedded message that is written only where
/// there is one, with that message taken in, where the message puts it by
/// `put`.
pub proof fn lemma_optional_message_step<M: WireMessage, Inner: MessageEncoding>(
    acc: M::V,
    put: spec_fn(Inner::V) -> M::V,
    s: Seq<u8>,
    pos: int,
    limit: int,
    budget: nat,
    tag: u32,
    v: Option<Inner::V>,
)
    requires
        1 <= tag < 0x2000_0000,
        v matches Some(inner) ==> holds_at(s, pos, message_field_bytes::<Inner>(tag, inner)) && pos
            + message_field_bytes::<Inner>(tag, inner).len() <= limit && message_field_bytes::<Inner>(tag, inner).len()
            <= u64::MAX,
        budget > Inner::depth(),
        forall|p: int| #[trigger]
            M::with_field(acc, s, p, tag, WireType::LengthDelimited, budget) == mapped(
                message_at::<Inner>(Inner::blank(), s, p, WireType::LengthDelimited, budget),
                put,
            ),
    ensures
        fields_from::<M>(acc, s, pos, limit, budget) == (match v {
            Some(inner) => fields_from::<M>(
                put(inner),
                s,
                pos + message_field_bytes::<Inner>(tag, inner).len(),
                limit,
                budget,
            ),
            None => fields_from::<M>(acc, s, pos, limit, budget),
        }),
{
    match v {
        Some(inner) => {
            lemma_message_field::<Inner>(s, pos, tag, inner, budget);
            let payload = pos + key_bytes(tag, WireType::LengthDelimited).len();
            assert(M::with_field(acc, s, payload, tag, WireType::LengthDelimited, budget) == mapped(
                message_at::<Inner>(Inner::blank(), s, payload, WireType::LengthDelimited, budget),
                put,
            ));
        },
        None => {},
    }
}

/// Reading goes on behind a run of embedded messages with each of them
/// taken in, where the message appends an embedded message to `before`
/// and puts the list by `put`.
pub proof fn lemma_messages_step<M: WireMessage, Inner: MessageEncoding>(
    before: Seq<Inner::V>,
    put: spec_fn(Seq<Inner::V>) -> M::V,
    s: Seq<u8>,
    pos: int,
    limit: int,
    budget: nat,
    tag: u32,
    list: Seq<Inner::V>,
)
    requires
        1 <= tag < 0x2000_0000,
        holds_at(s, pos, messages_bytes::<Inner>(tag, list)),
        pos + messages_bytes::<Inner>(tag, list).len() <= limit,
        messages_bytes::<Inner>(tag, list).len() <= u64::MAX,
        budget > Inner::depth(),
        forall|l: Seq<Inner::V>, p: int| #[trigger]
            M::with_field(put(l), s, p, tag, WireType::LengthDelimited, budget) == mapped(
                message_at::<Inner>(Inner::blank(), s, p, WireType::LengthDelimited, budget),
                |v: Inner::V| put(l.push(v)),
            ),
    ensures
        fields_from::<M>(put(before), s, pos, limit, budget) == fields_from::<M>(
            put(before + list),
            s,
            pos + messages_bytes::<Inner>(tag, list).len(),
            limit,
            budget,
        ),
    decreases list.len(),
{
    if list.len() > 0 {
        let head = message_field_bytes::<Inner>(tag, list.first());
        let tail = messages_bytes::<Inner>(tag, list.drop_first());
        lemma_holds_split(s, pos, head, tail);
        lemma_message_field::<Inner>(s, pos, tag, list.first(), budget);
        let payload = pos + key_bytes(tag, WireType::LengthDelimited).len();
        assert(M::with_field(put(before), s, payload, tag, WireType::LengthDelimited, budget) == mapped(
            message_at::<Inner>(Inner::blank(), s, payload, WireType::LengthDelimited, budget),
            |v: Inner::V| put(before.push(v)),
        ));
        lemma_messages_step::<M, Inner>(
            before.push(list.first()),
            put,
            s,
            pos + head.len(),
            limit,
            budget,
            tag,
            list.drop_first(),
        );
        assert(before.push(list.first()) + list.drop_first() =~= before + list);
    } else {
        assert(before + list =~= before);
    }
}

/// Reading goes on behind a run of string fields with each of them taken
/// in, where the message appends a string to `before` and puts the list
/// by `put`.
pub proof fn lemma_strings_step<M: WireMessage>(
    before: Seq<Seq<char>>,
    put: spec_fn(Seq<Seq<char>>) -> M::V,
    s: Seq<u8>,
    pos: int,
    limit: int,
    budget: nat,
    tag: u32,
    list: Seq<Seq<char>>,
)
    requires
        1 <= tag < 0x2000_0000,
        holds_at(s, pos, strings_bytes(tag, list)),
        pos + strings_bytes(tag, list).len() <= limit,
        strings_bytes(tag, list).len() <= u64::MAX,
        forall|l: Seq<Seq<char>>, p: int| #[trigger]
            M::with_field(put(l), s, p, tag, WireType::LengthDelimited, budget) == mapped(
                string_at(s, p, WireType::LengthDelimited),
                |v: Seq<char>| put(l.push(v)),
            ),
    ensures
        fields_from::<M>(put(before), s, pos, limit, budget) == fields_from::<M>(
            put(before + list),
            s,
            pos + strings_bytes(tag, list).len(),
            limit,
            budget,
        ),
    decreases list.len(),
{
    if list.len() > 0 {
        let head = string_field_bytes(tag, list.first());
        let tail = strings_bytes(tag, list.drop_first());
        lemma_holds_split(s, pos, head, tail);
        lemma_string_field(s, pos, tag, list.first());
        let payload = pos + key_bytes(tag, WireType::LengthDelimited).len();
        assert(M::with_field(put(before), s, payload, tag, WireType::LengthDelimited, budget) == mapped(
            string_at(s, payload, WireType::LengthDelimited),
            |v: Seq<char>| put(before.push(v)),
        ));
        lemma_strings_step::<M>(before.push(list.first()), put, s, pos + head.len(), limit, budget, tag, list.drop_first());
        assert(before.push(list.first()) + list.drop_first() =~= before + list);
    } else {
        assert(before + list =~= before);
    }
}

/// A string field is read back as it was written.
pub proof fn lemma_string_field(s: Seq<u8>, pos: int, tag: u32, text: Seq<char>)
    requires
        1 <= tag < 0x2000_0000,
        holds_at(s, pos, string_field_bytes(tag, text)),
        encode_utf8(text).len() <= u64::MAX,
    ensures
        key_at(s, pos) == Ok::<(u32, WireType, int), DecodeError>(
            (tag, WireType::LengthDelimited, pos + key_bytes(tag, WireType::LengthDelimited).len()),
        ),
        string_at(s, pos + key_bytes(tag, WireType::LengthDelimited).len(), WireType::LengthDelimited) == Ok::<
            (Seq<char>, int),
            DecodeError,
        >((text, pos + string_field_bytes(tag, text).len())),
        key_bytes(tag, WireType::LengthDelimited).len() >= 1,
{
    let key = key_bytes(tag, WireType::LengthDelimited);
    let body = encode_utf8(text);
    let len = varint_bytes(body.len());
    lemma_holds_bounds(s, pos, string_field_bytes(tag, text));
    lemma_holds_split(s, pos, key + len, body);
    lemma_holds_split(s, pos, key, len);
    lemma_key_round_trip(s, pos, tag, WireType::LengthDelimited);
    lemma_varint_round_trip(s, pos + key.len(), body.len() as u64);
    let start = pos + key.len() + len.len();
    assert(s.subrange(start, start + body.len()) =~= body) by {
        reveal(holds_at);
    }
    encode_utf8_valid_utf8(text);
    encode_utf8_decode_utf8(text);
}

/// Appends a single field where `present` says so.
pub fn write_optional<S: ScalarEncoding>(out: &mut Vec<u8>, tag: u32, v: &S::Value, present: bool)
    ensures
        final(out)@ == old(out)@ + optional_bytes::<S>(tag, *v, present),
{
    if present {
        push_key(out, tag, S::wire_type());
        S::write(out, v);
        assert(final(out)@ =~= old(out)@ + optional_bytes::<S>(tag, *v, present));
    } else {
        assert(final(out)@ =~= old(out)@ + optional_bytes::<S>(tag, *v, present));
    }
}

/// Appends a repeated field, packed.
pub fn write_repeated<S: ScalarEncoding>(out: &mut Vec<u8>, tag: u32, values: &Vec<S::Value>)
    ensures
        final(out)@ == old(out)@ + repeated_bytes::<S>(tag, values@),
{
    if values.len() == 0 {
        assert(final(out)@ =~= old(out)@ + repeated_bytes::<S>(tag, values@));
        return ;
    }
    let mut packed: Vec<u8> = Vec::new();
    let mut i: usize = 0;
    assert(values@.skip(0) =~= values@);
    while i < values.len()
        invariant
            i <= values.len(),
            packed_bytes::<S>(values@) == packed@ + packed_bytes::<S>(values@.skip(i as int)),
        decreases values.len() - i,
    {
        let ghost before = packed@;
        S::write(&mut packed, &values[i]);
        proof {
            let rest = values@.skip(i as int);
            assert(rest.first() == values@[i as int]);
            assert(rest.drop_first() =~= values@.skip(i + 1));
            assert(before + packed_bytes::<S>(rest) =~= packed@ + packed_bytes::<S>(values@.skip(i + 1)));
        }
        i = i + 1;
    }
    assert(packed@ =~= packed_bytes::<S>(values@));
    push_key(out, tag, WireType::LengthDelimited);
    push_varint(out, packed.len() as u64);
    out.append(&mut packed);
    assert(final(out)@ =~= old(out)@ + repeated_bytes::<S>(tag, values@));
}

/// Appends an embedded message.
pub fn write_message<M: MessageEncoding>(out: &mut Vec<u8>, tag: u32, m: &M)
    ensures
        final(out)@ == old(out)@ + message_field_bytes::<M>(tag, m@),
{
    let mut body: Vec<u8> = Vec::new();
    m.encode_into(&mut body);
    assert(body@ =~= M::encoding(m@));
    push_key(out, tag, WireType::LengthDelimited);
    push_varint(out, body.len() as u64);
    out.append(&mut body);
    assert(final(out)@ =~= old(out)@ + message_field_bytes::<M>(tag, m@));
}

/// Appends an embedded message where there is one.
pub fn write_optional_message<M: MessageEncoding>(out: &mut Vec<u8>, tag: u32, m: &Option<M>)
    ensures
        final(out)@ == old(out)@ + optional_message_bytes::<M>(
            tag,
            match m {
                Some(inner) => Some(inner@),
                None => None,
            },
        ),
{
    match m {
        Some(inner) => write_message::<M>(out, tag, inner),
        None => {
            assert(final(out)@ =~= old(out)@ + Seq::<u8>::empty());
        },
    }
}

/// Appends a run of embedded messages under one field number.
pub fn write_messages<M: MessageEncoding>(out: &mut Vec<u8>, tag: u32, list: &Vec<M>)
    ensures
        final(out)@ == old(out)@ + messages_bytes::<M>(tag, views_of(list@)),
{
    let ghost views = views_of(list@);
    let mut i: usize = 0;
    assert(views.skip(0) =~= views);
    assert(out@ + messages_bytes::<M>(tag, views) =~= old(out)@ + messages_bytes::<M>(tag, views));
    while i < list.len()
        invariant
            i <= list.len(),
            views == views_of(list@),
            old(out)@ + messages_bytes::<M>(tag, views) == out@ + messages_bytes::<M>(tag, views.skip(i as int)),
        decreases list.len() - i,
    {
        let ghost before = out@;
        write_message::<M>(out, tag, &list[i]);
        proof {
            let rest = views.skip(i as int);
            assert(rest.first() == list@[i as int]@);
            assert(rest.drop_first() =~= views.skip(i + 1));
            assert(before + messages_bytes::<M>(tag, rest) =~= out@ + messages_bytes::<M>(tag, views.skip(i + 1)));
        }
        i = i + 1;
    }
    assert(out@ + messages_bytes::<M>(tag, views.skip(i as int)) =~= out@);
}

/// Appends a string field.
pub fn write_string(out: &mut Vec<u8>, tag: u32, text: &String)
    ensures
        final(out)@ == old(out)@ + string_field_bytes(tag, text@),
{
    let mut body: Vec<u8> = text.as_str().as_bytes_vec();
    push_key(out, tag, WireType::LengthDelimited);
    push_varint(out, body.len() as u64);
    out.append(&mut body);
    assert(final(out)@ =~= old(out)@ + string_field_bytes(tag, text@));
}

/// Appends a run of string fields under one field number.
pub fn write_strings(out: &mut Vec<u8>, tag: u32, list: &Vec<String>)
    ensures
        final(out)@ == old(out)@ + strings_bytes(tag, views_of(list@)),
{
    let ghost views = views_of(list@);
    let mut i: usize = 0;
    assert(views.skip(0) =~= views);
    assert(out@ + strings_bytes(tag, views) =~= old(out)@ + strings_bytes(tag, views));
    while i < list.len()
        invariant
            i <= list.len(),
            views == views_of(list@),
            old(out)@ + strings_bytes(tag, views) == out@ + strings_bytes(tag, views.skip(i as int)),
        decreases list.len() - i,
    {
        let ghost before = out@;
        write_string(out, tag, &list[i]);
        proof {
            let rest = views.skip(i as int);
            assert(rest.first() == list@[i as int]@);
            assert(rest.drop_first() =~= views.skip(i + 1));
            assert(before + strings_bytes(tag, rest) =~= out@ + strings_bytes(tag, views.skip(i + 1)));
        }
        i = i + 1;
    }
    assert(out@ + strings_bytes(tag, views.skip(i as int)) =~= out@);
}

} // verus!

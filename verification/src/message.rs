//! Messages of the wire format: a message is a run of keyed fields, and an
//! embedded message is such a run behind its length.

use crate::scalar::closed_at;
use crate::text::string_from_utf8;
use crate::wire::{
    check_wire_type, delimited_at, expect_wire, key_at, lemma_delimited_bounds, lemma_key_bounds,
    read_delimited, read_key, DecodeError, WireType,
};
use vstd::prelude::*;
use vstd::slice::{slice_subrange, slice_to_vec};
use vstd::utf8::{decode_utf8, valid_utf8};

verus! {

/// A message type: what each of its fields does to a value of it.
///
/// `budget` is the nesting depth that is still allowed below the message.
pub trait WireMessage: Sized + View {
    /// The value that a message without fields decodes to.
    spec fn blank() -> Self::V;

    /// The message `acc` after the field with number `tag`, whose payload
    /// starts at `pos`, and the position behind that payload. A field that
    /// the message does not know leaves it as it is.
    spec fn with_field(acc: Self::V, s: Seq<u8>, pos: int, tag: u32, wire: WireType, budget: nat) -> Result<(Self::V, int), DecodeError>;

    /// How many samples, histograms and exemplars the message holds. Each
    /// takes two bytes or more on the wire, which bounds their number by
    /// the length of what was decoded.
    spec fn entry_count(v: Self::V) -> nat;

    /// A field ends inside the buffer and never moves back, and what it
    /// adds to the entries of the message it pays for in bytes, its key
    /// counted.
    proof fn lemma_with_field(acc: Self::V, s: Seq<u8>, pos: int, tag: u32, wire: WireType, budget: nat)
        requires
            0 <= pos <= s.len(),
        ensures
            Self::entry_count(Self::blank()) == 0,
            Self::with_field(acc, s, pos, tag, wire, budget) matches Ok((merged, next)) ==> pos <= next <= s.len() && 2
                * Self::entry_count(merged) <= 2 * Self::entry_count(acc) + (next - pos) + 1,
    ;

    /// A message without fields.
    fn new_blank() -> (m: Self)
        ensures
            m@ == Self::blank(),
    ;

    /// Takes in the field with number `tag` whose payload starts at
    /// `pos`. After a failure the message holds nothing of use.
    fn merge_field(&mut self, buf: &[u8], pos: usize, tag: u32, wire: WireType, budget: u32) -> (r: Result<usize, DecodeError>)
        ensures
            match r {
                Ok(next) => Self::with_field(old(self)@, buf@, pos as int, tag, wire, budget as nat) == Ok::<(Self::V, int), DecodeError>(
                    (final(self)@, next as int),
                ) && pos <= next <= buf.len(),
                Err(e) => Self::with_field(old(self)@, buf@, pos as int, tag, wire, budget as nat) == Err::<(Self::V, int), DecodeError>(e),
            },
    ;
}

/// The message `acc` after the fields between `pos` and `limit`, and the
/// position behind the last of them, which lies behind `limit` where that
/// field's payload runs over it. Every field ends behind its key
/// (`lemma_key_bounds`, `lemma_with_field`), so the last branch is never
/// taken; it is there for the function to be seen to end.
pub open spec fn fields_from<M: WireMessage>(acc: M::V, s: Seq<u8>, pos: int, limit: int, budget: nat) -> Result<(M::V, int), DecodeError>
    decreases (if limit > pos { limit - pos } else { 0 }),
{
    if pos >= limit {
        Ok((acc, pos))
    } else {
        match key_at(s, pos) {
            Err(e) => Err(e),
            Ok((tag, wire, payload)) => match M::with_field(acc, s, payload, tag, wire, budget) {
                Err(e) => Err(e),
                Ok((merged, next)) => {
                    if pos < next {
                        fields_from::<M>(merged, s, next, limit, budget)
                    } else {
                        Err(DecodeError::BufferUnderflow)
                    }
                },
            },
        }
    }
}

/// The embedded message whose length stands at `pos`, merged into `init`.
pub open spec fn message_at<M: WireMessage>(init: M::V, s: Seq<u8>, pos: int, wire: WireType, budget: nat) -> Result<(M::V, int), DecodeError> {
    match expect_wire(WireType::LengthDelimited, wire) {
        Err(e) => Err(e),
        Ok(_) => {
            if budget == 0 {
                Err(DecodeError::RecursionLimitReached)
            } else {
                match delimited_at(s, pos) {
                    Err(e) => Err(e),
                    Ok((start, end)) => closed_at(end, fields_from::<M>(init, s, start, end, (budget - 1) as nat)),
                }
            }
        },
    }
}

/// The message that the whole of `s` encodes.
pub open spec fn message_of<M: WireMessage>(s: Seq<u8>, budget: nat) -> Result<M::V, DecodeError> {
    match fields_from::<M>(M::blank(), s, 0, s.len() as int, budget) {
        Err(e) => Err(e),
        Ok((m, _)) => Ok(m),
    }
}

/// The string field whose length stands at `pos`.
pub open spec fn string_at(s: Seq<u8>, pos: int, wire: WireType) -> Result<(Seq<char>, int), DecodeError> {
    match expect_wire(WireType::LengthDelimited, wire) {
        Err(e) => Err(e),
        Ok(_) => match delimited_at(s, pos) {
            Err(e) => Err(e),
            Ok((start, end)) => {
                if valid_utf8(s.subrange(start, end)) {
                    Ok((decode_utf8(s.subrange(start, end)), end))
                } else {
                    Err(DecodeError::InvalidString)
                }
            },
        },
    }
}

/// A run of fields ends inside the buffer, not before its limit, and what
/// it adds to the entries of the message it pays for in bytes.
pub proof fn lemma_fields_bounds<M: WireMessage>(acc: M::V, s: Seq<u8>, pos: int, limit: int, budget: nat)
    requires
        0 <= pos <= s.len(),
        limit <= s.len(),
    ensures
        fields_from::<M>(acc, s, pos, limit, budget) matches Ok((m, stop)) ==> pos <= stop <= s.len() && limit <= stop
            && 2 * M::entry_count(m) <= 2 * M::entry_count(acc) + (stop - pos),
    decreases (if limit > pos { limit - pos } else { 0 }),
{
    if pos < limit {
        lemma_key_bounds(s, pos);
        match key_at(s, pos) {
            Err(_) => {},
            Ok((tag, wire, payload)) => {
                M::lemma_with_field(acc, s, payload, tag, wire, budget);
                match M::with_field(acc, s, payload, tag, wire, budget) {
                    Err(_) => {},
                    Ok((merged, next)) => {
                        lemma_fields_bounds::<M>(merged, s, next, limit, budget);
                    },
                }
            },
        }
    }
}

/// An embedded message takes one byte or more of the buffer, and more
/// than twice as many as it adds entries.
pub proof fn lemma_message_bounds<M: WireMessage>(init: M::V, s: Seq<u8>, pos: int, wire: WireType, budget: nat)
    requires
        0 <= pos <= s.len(),
    ensures
        message_at::<M>(init, s, pos, wire, budget) matches Ok((m, next)) ==> pos < next <= s.len() && 2
            * M::entry_count(m) < 2 * M::entry_count(init) + (next - pos),
{
    lemma_delimited_bounds(s, pos);
    match delimited_at(s, pos) {
        Err(_) => {},
        Ok((start, end)) => {
            if budget > 0 {
                lemma_fields_bounds::<M>(init, s, start, end, (budget - 1) as nat);
            }
        },
    }
}

/// A message holds at most half as many entries as it has bytes.
pub proof fn lemma_entries_bounded<M: WireMessage>(s: Seq<u8>, budget: nat)
    ensures
        message_of::<M>(s, budget) matches Ok(m) ==> 2 * M::entry_count(m) <= s.len(),
{
    M::lemma_with_field(M::blank(), s, 0, 1, WireType::Varint, budget);
    lemma_fields_bounds::<M>(M::blank(), s, 0, s.len() as int, budget);
}

/// A string field takes one byte or more of the buffer.
pub proof fn lemma_string_bounds(s: Seq<u8>, pos: int, wire: WireType)
    requires
        0 <= pos <= s.len(),
    ensures
        string_at(s, pos, wire) matches Ok((_, next)) ==> pos < next <= s.len(),
{
    lemma_delimited_bounds(s, pos);
}

/// Merges the fields between `start` and `limit` into `m`.
pub fn merge_fields<M: WireMessage>(m: &mut M, buf: &[u8], start: usize, limit: usize, budget: u32) -> (r: Result<usize, DecodeError>)
    ensures
        match r {
            Ok(stop) => fields_from::<M>(old(m)@, buf@, start as int, limit as int, budget as nat) == Ok::<(M::V, int), DecodeError>(
                (final(m)@, stop as int),
            ) && start <= stop && limit <= stop,
            Err(e) => fields_from::<M>(old(m)@, buf@, start as int, limit as int, budget as nat) == Err::<(M::V, int), DecodeError>(e),
        },
{
    let mut at: usize = start;
    while at < limit
        invariant
            start <= at,
            fields_from::<M>(m@, buf@, at as int, limit as int, budget as nat) == fields_from::<M>(
                old(m)@,
                buf@,
                start as int,
                limit as int,
                budget as nat,
            ),
        decreases
                (if limit > at {
                    limit - at
                } else {
                    0
                }),
    {
        let (tag, wire, payload) = read_key(buf, at)?;
        let next = m.merge_field(buf, payload, tag, wire, budget)?;
        at = next;
    }
    Ok(at)
}

/// Reads the embedded message whose length stands at `pos` and merges it
/// into `init`.
pub fn read_message<M: WireMessage>(init: M, buf: &[u8], pos: usize, wire: WireType, budget: u32) -> (r: Result<(M, usize), DecodeError>)
    ensures
        match r {
            Ok((m, next)) => message_at::<M>(init@, buf@, pos as int, wire, budget as nat) == Ok::<(M::V, int), DecodeError>(
                (m@, next as int),
            ) && pos < next <= buf.len(),
            Err(e) => message_at::<M>(init@, buf@, pos as int, wire, budget as nat) == Err::<(M::V, int), DecodeError>(e),
        },
{
    check_wire_type(WireType::LengthDelimited, wire)?;
    if budget == 0 {
        return Err(DecodeError::RecursionLimitReached);
    }
    let (start, end) = read_delimited(buf, pos)?;
    let mut m = init;
    let stop = merge_fields(&mut m, buf, start, end, budget - 1)?;
    if stop != end {
        return Err(DecodeError::DelimitedLengthExceeded);
    }
    Ok((m, stop))
}

/// Decodes the message that the whole of `buf` encodes.
pub fn decode_message<M: WireMessage>(buf: &[u8], budget: u32) -> (r: Result<M, DecodeError>)
    ensures
        match r {
            Ok(m) => message_of::<M>(buf@, budget as nat) == Ok::<M::V, DecodeError>(m@),
            Err(e) => message_of::<M>(buf@, budget as nat) == Err::<M::V, DecodeError>(e),
        },
{
    let mut m = M::new_blank();
    let _ = merge_fields(&mut m, buf, 0, buf.len(), budget)?;
    Ok(m)
}

/// Reads the string field whose length stands at `pos`.
pub fn read_string(buf: &[u8], pos: usize, wire: WireType) -> (r: Result<(String, usize), DecodeError>)
    ensures
        match r {
            Ok((text, next)) => string_at(buf@, pos as int, wire) == Ok::<(Seq<char>, int), DecodeError>((text@, next as int))
                && pos < next <= buf.len(),
            Err(e) => string_at(buf@, pos as int, wire) == Err::<(Seq<char>, int), DecodeError>(e),
        },
{
    check_wire_type(WireType::LengthDelimited, wire)?;
    let (start, end) = read_delimited(buf, pos)?;
    let bytes = slice_to_vec(slice_subrange(buf, start, end));
    match string_from_utf8(bytes) {
        Some(text) => Ok((text, end)),
        None => Err(DecodeError::InvalidString),
    }
}

} // verus!

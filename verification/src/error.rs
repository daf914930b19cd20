//! What can go wrong with a request, the status that answers it and the
//! text that tells the client.

use crate::text::{unsigned_string, unsigned_text};
use crate::wire::{DecodeError, WireType};
use vstd::prelude::*;
use vstd::string::StringExecFns;

verus! {

/// The status of an answer without a body.
pub const NO_CONTENT: u16 = 204;

/// The status for a body that cannot be read.
pub const BAD_REQUEST: u16 = 400;

/// The status for a path or method that is not served.
pub const NOT_FOUND: u16 = 404;

/// The status for an encoding or a content type that is not taken.
pub const UNSUPPORTED_MEDIA_TYPE: u16 = 415;

/// The status for a message that the broker did not take.
pub const INTERNAL_SERVER_ERROR: u16 = 500;

/// The stages that a request passes, in their order.
#[derive(Clone, Copy, Debug, PartialEq, Eq, Structural)]
pub enum Stage {
    Start,
    EncodingValidated,
    ContentTypeValidated,
    Decompressed,
    Decoded,
    Summarized,
    Produced,
    Responded,
}

/// The kinds of failure of a request.
#[derive(Clone, Copy, Debug, PartialEq, Eq, Structural)]
pub enum ErrorKind {
    /// No `Content-Encoding` header, or an empty one.
    MissingEncoding,
    /// A `Content-Encoding` other than the supported one.
    UnsupportedEncoding,
    /// No `Content-Type` header, or an empty one.
    MissingContentType,
    /// A `Content-Type` other than the supported one.
    UnsupportedContentType,
    /// The body is not a well-formed compressed block.
    DecompressionFailed,
    /// The decompressed body is not a well-formed request message.
    DecodeFailed { cause: DecodeError },
    /// The broker could not be reached.
    BrokerUnavailable,
    /// The broker did not acknowledge in time.
    DeliveryTimeout,
    /// The broker refused the message as malformed.
    MessageRejected,
}

/// A failure of a request with its diagnostic text.
#[derive(Clone, Debug, PartialEq, Eq)]
pub struct IngestError {
    pub kind: ErrorKind,
    pub message: String,
}

/// A failure as a value: its kind and its text.
pub struct IngestErrorView {
    pub kind: ErrorKind,
    pub message: Seq<char>,
}

impl View for IngestError {
    type V = IngestErrorView;

    open spec fn view(&self) -> IngestErrorView {
        IngestErrorView { kind: self.kind, message: self.message@ }
    }
}

/// The HTTP status that answers a failure of the given kind.
pub open spec fn status_of(kind: ErrorKind) -> u16 {
    match kind {
        ErrorKind::MissingEncoding => UNSUPPORTED_MEDIA_TYPE,
        ErrorKind::UnsupportedEncoding => UNSUPPORTED_MEDIA_TYPE,
        ErrorKind::MissingContentType => UNSUPPORTED_MEDIA_TYPE,
        ErrorKind::UnsupportedContentType => UNSUPPORTED_MEDIA_TYPE,
        ErrorKind::DecompressionFailed => BAD_REQUEST,
        ErrorKind::DecodeFailed { .. } => BAD_REQUEST,
        ErrorKind::BrokerUnavailable => INTERNAL_SERVER_ERROR,
        ErrorKind::DeliveryTimeout => INTERNAL_SERVER_ERROR,
        ErrorKind::MessageRejected => INTERNAL_SERVER_ERROR,
    }
}

/// Whether sending the same request again may succeed.
pub open spec fn retryable_kind(kind: ErrorKind) -> bool {
    kind == ErrorKind::BrokerUnavailable || kind == ErrorKind::DeliveryTimeout
}

/// The last stage that a request had passed when it failed in this way.
pub open spec fn stage_before(kind: ErrorKind) -> Stage {
    match kind {
        ErrorKind::MissingEncoding => Stage::Start,
        ErrorKind::UnsupportedEncoding => Stage::Start,
        ErrorKind::MissingContentType => Stage::EncodingValidated,
        ErrorKind::UnsupportedContentType => Stage::EncodingValidated,
        ErrorKind::DecompressionFailed => Stage::ContentTypeValidated,
        ErrorKind::DecodeFailed { .. } => Stage::Decompressed,
        ErrorKind::BrokerUnavailable => Stage::Summarized,
        ErrorKind::DeliveryTimeout => Stage::Summarized,
        ErrorKind::MessageRejected => Stage::Summarized,
    }
}

impl ErrorKind {
    /// The HTTP status that answers a failure of this kind.
    pub fn status(&self) -> (code: u16)
        ensures
            code == status_of(*self),
    {
        match self {
            ErrorKind::MissingEncoding => UNSUPPORTED_MEDIA_TYPE,
            ErrorKind::UnsupportedEncoding => UNSUPPORTED_MEDIA_TYPE,
            ErrorKind::MissingContentType => UNSUPPORTED_MEDIA_TYPE,
            ErrorKind::UnsupportedContentType => UNSUPPORTED_MEDIA_TYPE,
            ErrorKind::DecompressionFailed => BAD_REQUEST,
            ErrorKind::DecodeFailed { .. } => BAD_REQUEST,
            ErrorKind::BrokerUnavailable => INTERNAL_SERVER_ERROR,
            ErrorKind::DeliveryTimeout => INTERNAL_SERVER_ERROR,
            ErrorKind::MessageRejected => INTERNAL_SERVER_ERROR,
        }
    }

    /// Whether sending the same request again may succeed.
    pub fn retryable(&self) -> (yes: bool)
        ensures
            yes == retryable_kind(*self),
    {
        match self {
            ErrorKind::BrokerUnavailable => true,
            ErrorKind::DeliveryTimeout => true,
            _ => false,
        }
    }

    /// The last stage that a request had passed when it failed in this way.
    pub fn failed_after(&self) -> (stage: Stage)
        ensures
            stage == stage_before(*self),
    {
        match self {
            ErrorKind::MissingEncoding => Stage::Start,
            ErrorKind::UnsupportedEncoding => Stage::Start,
            ErrorKind::MissingContentType => Stage::EncodingValidated,
            ErrorKind::UnsupportedContentType => Stage::EncodingValidated,
            ErrorKind::DecompressionFailed => Stage::ContentTypeValidated,
            ErrorKind::DecodeFailed { .. } => Stage::Decompressed,
            ErrorKind::BrokerUnavailable => Stage::Summarized,
            ErrorKind::DeliveryTimeout => Stage::Summarized,
            ErrorKind::MessageRejected => Stage::Summarized,
        }
    }
}

/// The place of a stage in the order of the stages.
pub open spec fn stage_rank(stage: Stage) -> nat {
    match stage {
        Stage::Start => 0,
        Stage::EncodingValidated => 1,
        Stage::ContentTypeValidated => 2,
        Stage::Decompressed => 3,
        Stage::Decoded => 4,
        Stage::Summarized => 5,
        Stage::Produced => 6,
        Stage::Responded => 7,
    }
}

/// The stage at a place in the order of the stages.
pub open spec fn stage_at(rank: nat) -> Stage {
    if rank == 0 {
        Stage::Start
    } else if rank == 1 {
        Stage::EncodingValidated
    } else if rank == 2 {
        Stage::ContentTypeValidated
    } else if rank == 3 {
        Stage::Decompressed
    } else if rank == 4 {
        Stage::Decoded
    } else if rank == 5 {
        Stage::Summarized
    } else if rank == 6 {
        Stage::Produced
    } else {
        Stage::Responded
    }
}

/// The stages from the first up to `last`, in their order.
pub open spec fn stages_through(last: Stage) -> Seq<Stage> {
    Seq::new(stage_rank(last) + 1, |i: int| stage_at(i as nat))
}

/// The stages that a request goes through: all of them where nothing
/// fails, and otherwise those up to the last that it passes, and from
/// there straight to the answer.
pub open spec fn path_of(failure: Option<ErrorKind>) -> Seq<Stage> {
    match failure {
        None => stages_through(Stage::Responded),
        Some(kind) => stages_through(stage_before(kind)).push(Stage::Responded),
    }
}

impl Stage {
    /// The place of the stage in the order of the stages.
    pub fn rank(&self) -> (rank: u8)
        ensures
            rank == stage_rank(*self),
    {
        match self {
            Stage::Start => 0,
            Stage::EncodingValidated => 1,
            Stage::ContentTypeValidated => 2,
            Stage::Decompressed => 3,
            Stage::Decoded => 4,
            Stage::Summarized => 5,
            Stage::Produced => 6,
            Stage::Responded => 7,
        }
    }

    /// The stage at a place in the order of the stages; the last stage for
    /// a place behind it.
    pub fn at_rank(rank: u8) -> (stage: Stage)
        ensures
            stage == stage_at(rank as nat),
    {
        if rank == 0 {
            Stage::Start
        } else if rank == 1 {
            Stage::EncodingValidated
        } else if rank == 2 {
            Stage::ContentTypeValidated
        } else if rank == 3 {
            Stage::Decompressed
        } else if rank == 4 {
            Stage::Decoded
        } else if rank == 5 {
            Stage::Summarized
        } else if rank == 6 {
            Stage::Produced
        } else {
            Stage::Responded
        }
    }
}

/// Lists the stages that a request goes through, by the failure that ends
/// it, if any.
pub fn stages_passed(failure: Option<ErrorKind>) -> (path: Vec<Stage>)
    ensures
        path@ == path_of(failure),
{
    let last: Stage = match failure {
        None => Stage::Responded,
        Some(kind) => kind.failed_after(),
    };
    let end: u8 = last.rank();
    let mut path: Vec<Stage> = Vec::new();
    let mut rank: u8 = 0;
    while rank <= end
        invariant
            rank <= end + 1,
            end == stage_rank(last),
            end <= 7,
            path@ == Seq::new(rank as nat, |i: int| stage_at(i as nat)),
        decreases end + 1 - rank,
    {
        path.push(Stage::at_rank(rank));
        assert(path@ =~= Seq::new((rank + 1) as nat, |i: int| stage_at(i as nat)));
        rank = rank + 1;
    }
    assert(path@ =~= stages_through(last));
    if failure.is_some() {
        path.push(Stage::Responded);
    }
    path
}

/// The name of a wire type.
pub open spec fn wire_name(wire: WireType) -> Seq<char> {
    match wire {
        WireType::Varint => "Varint"@,
        WireType::SixtyFourBit => "SixtyFourBit"@,
        WireType::LengthDelimited => "LengthDelimited"@,
        WireType::StartGroup => "StartGroup"@,
        WireType::EndGroup => "EndGroup"@,
        WireType::ThirtyTwoBit => "ThirtyTwoBit"@,
    }
}

/// What is wrong with a message, in words.
pub open spec fn description_of(cause: DecodeError) -> Seq<char> {
    match cause {
        DecodeError::InvalidVarint => "invalid varint"@,
        DecodeError::RecursionLimitReached => "recursion limit reached"@,
        DecodeError::InvalidWireType { value } => "invalid wire type value: "@ + unsigned_text(value as nat),
        DecodeError::InvalidKey { key } => "invalid key value: "@ + unsigned_text(key as nat),
        DecodeError::InvalidTag => "invalid tag value: 0"@,
        DecodeError::UnexpectedWireType { actual, expected } => "invalid wire type: "@ + wire_name(actual)
            + " (expected "@ + wire_name(expected) + ")"@,
        DecodeError::BufferUnderflow => "buffer underflow"@,
        DecodeError::DelimitedLengthExceeded => "delimited length exceeded"@,
        DecodeError::UnexpectedEndGroupTag => "unexpected end group tag"@,
        DecodeError::InvalidString => "invalid string value: data is not UTF-8 encoded"@,
    }
}

/// The diagnostic text of a message that does not decode.
pub open spec fn decode_failure_text(cause: DecodeError) -> Seq<char> {
    "failed to decode Protobuf message: "@ + description_of(cause)
}

fn wire_name_str(wire: WireType) -> (name: &'static str)
    ensures
        name@ == wire_name(wire),
{
    match wire {
        WireType::Varint => "Varint",
        WireType::SixtyFourBit => "SixtyFourBit",
        WireType::LengthDelimited => "LengthDelimited",
        WireType::StartGroup => "StartGroup",
        WireType::EndGroup => "EndGroup",
        WireType::ThirtyTwoBit => "ThirtyTwoBit",
    }
}

/// Says in words what is wrong with a message.
pub fn describe(cause: DecodeError) -> (text: String)
    ensures
        text@ == description_of(cause),
{
    match cause {
        DecodeError::InvalidVarint => String::from_str("invalid varint"),
        DecodeError::RecursionLimitReached => String::from_str("recursion limit reached"),
        DecodeError::InvalidWireType { value } => {
            let mut text = String::from_str("invalid wire type value: ");
            let number = unsigned_string(value);
            text.append(number.as_str());
            text
        },
        DecodeError::InvalidKey { key } => {
            let mut text = String::from_str("invalid key value: ");
            let number = unsigned_string(key);
            text.append(number.as_str());
            text
        },
        DecodeError::InvalidTag => String::from_str("invalid tag value: 0"),
        DecodeError::UnexpectedWireType { actual, expected } => {
            let mut text = String::from_str("invalid wire type: ");
            text.append(wire_name_str(actual));
            text.append(" (expected ");
            text.append(wire_name_str(expected));
            text.append(")");
            text
        },
        DecodeError::BufferUnderflow => String::from_str("buffer underflow"),
        DecodeError::DelimitedLengthExceeded => String::from_str("delimited length exceeded"),
        DecodeError::UnexpectedEndGroupTag => String::from_str("unexpected end group tag"),
        DecodeError::InvalidString => String::from_str("invalid string value: data is not UTF-8 encoded"),
    }
}

impl IngestError {
    /// A failure of the given kind with a fixed text.
    pub fn with_text(kind: ErrorKind, text: &str) -> (e: IngestError)
        ensures
            e@ == (IngestErrorView { kind, message: text@ }),
    {
        IngestError { kind, message: String::from_str(text) }
    }

    /// The failure of a message that does not decode.
    pub fn decode_failed(cause: DecodeError) -> (e: IngestError)
        ensures
            e@ == (IngestErrorView {
                kind: ErrorKind::DecodeFailed { cause },
                message: decode_failure_text(cause),
            }),
    {
        let mut message = String::from_str("failed to decode Protobuf message: ");
        let description = describe(cause);
        message.append(description.as_str());
        IngestError { kind: ErrorKind::DecodeFailed { cause }, message }
    }

    /// The HTTP status that answers this failure.
    pub fn status(&self) -> (code: u16)
        ensures
            code == status_of(self@.kind),
    {
        self.kind.status()
    }
}

} // verus!

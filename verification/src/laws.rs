//! What holds of the handler for every request.

use crate::error::{
    decode_failure_text, path_of, stage_rank, ErrorKind, IngestErrorView, Stage, BAD_REQUEST,
    INTERNAL_SERVER_ERROR, NO_CONTENT, UNSUPPORTED_MEDIA_TYPE,
};
use crate::handler::{received, responded, StepView};
use crate::message_broker::{forwarded, Delivery, DeliveryResultView, FailureKind, INGEST_TOPIC};
use crate::remote_write::{
    exemplar_total, histogram_total, lemma_request_entries, request_of, sample_total,
    RemoteWriteRequestView,
};
use crate::response::{
    rejection, ResponseView, EXEMPLARS_WRITTEN, HISTOGRAMS_WRITTEN, SAMPLES_WRITTEN,
};
use crate::summary::{summary_of, IngestionSummary};
use crate::text::decimal_text;
use crate::validation::{
    content_type_of, encoding_of, HeaderLookupView, REMOTE_WRITE_V2, SNAPPY,
};
use crate::wire::DecodeError;
use vstd::prelude::*;
use vstd::string::StringSliceAdditionalSpecFns;

verus! {

/// That a step sends nothing to the broker.
pub open spec fn sends_nothing(step: StepView) -> bool {
    step is Reject
}

/// The status that a step is answered with where it sends nothing.
pub open spec fn rejected_with(step: StepView, status: u16) -> bool {
    step matches StepView::Reject(e) && rejection(e).status == status
}

/// A request without a `Content-Encoding` header, or with an empty one, is
/// answered with 415, and nothing is sent to the broker.
pub proof fn law_missing_encoding(
    content_encoding: HeaderLookupView,
    content_type: HeaderLookupView,
    inflated: Result<Seq<u8>, Seq<char>>,
    body: Seq<u8>,
)
    requires
        content_encoding is Absent || content_encoding is Empty,
    ensures
        rejected_with(received(content_encoding, content_type, inflated, body), UNSUPPORTED_MEDIA_TYPE),
        sends_nothing(received(content_encoding, content_type, inflated, body)),
        received(content_encoding, content_type, inflated, body) matches StepView::Reject(e) && e.kind
            == ErrorKind::MissingEncoding,
{
}

/// A request whose `Content-Encoding` is any other than the supported
/// token is answered with 415.
pub proof fn law_unsupported_encoding(
    token: Seq<u8>,
    content_type: HeaderLookupView,
    inflated: Result<Seq<u8>, Seq<char>>,
    body: Seq<u8>,
)
    requires
        token != SNAPPY.spec_bytes(),
    ensures
        rejected_with(
            received(HeaderLookupView::Present(token), content_type, inflated, body),
            UNSUPPORTED_MEDIA_TYPE,
        ),
        received(HeaderLookupView::Present(token), content_type, inflated, body) matches StepView::Reject(e)
            && e.kind == ErrorKind::UnsupportedEncoding,
{
}

/// A request with a sound encoding whose `Content-Type` is missing or is
/// any other than the supported media type is answered with 415, whatever
/// its body holds: the body is not looked at.
pub proof fn law_content_type_before_body(
    content_encoding: HeaderLookupView,
    content_type: HeaderLookupView,
    inflated: Result<Seq<u8>, Seq<char>>,
    body: Seq<u8>,
    other_inflated: Result<Seq<u8>, Seq<char>>,
    other_body: Seq<u8>,
)
    requires
        encoding_of(content_encoding) is Ok,
        content_type != HeaderLookupView::Present(REMOTE_WRITE_V2.spec_bytes()),
    ensures
        rejected_with(received(content_encoding, content_type, inflated, body), UNSUPPORTED_MEDIA_TYPE),
        received(content_encoding, content_type, inflated, body) == received(
            content_encoding,
            content_type,
            other_inflated,
            other_body,
        ),
{
}

/// A request with sound headers whose body decompresses to the encoding of
/// a batch with `samples` samples, `histograms` histograms and `exemplars`
/// exemplars, spread over its series in any way, is forwarded as one
/// message that holds the body as it arrived, and is answered, once the
/// message is delivered, with 204 and the three numbers in decimal.
pub proof fn law_well_formed_request(
    content_encoding: HeaderLookupView,
    content_type: HeaderLookupView,
    body: Seq<u8>,
    raw: Seq<u8>,
    request: RemoteWriteRequestView,
    samples: nat,
    histograms: nat,
    exemplars: nat,
    delivery: Delivery,
)
    requires
        encoding_of(content_encoding) is Ok,
        content_type_of(content_type) is Ok,
        raw.len() <= usize::MAX,
        request_of(raw) == Ok::<RemoteWriteRequestView, DecodeError>(request),
        sample_total(request.timeseries) == samples,
        histogram_total(request.timeseries) == histograms,
        exemplar_total(request.timeseries) == exemplars,
    ensures
        received(content_encoding, content_type, Ok(raw), body) == (StepView::Forward {
            request: forwarded(body),
            summary: summary_of(request),
        }),
        forwarded(body).value == body,
        forwarded(body).topic == INGEST_TOPIC@,
        forwarded(body).key.len() == 0,
        forwarded(body).headers.len() == 0,
        summary_of(request).samples == samples,
        summary_of(request).histograms == histograms,
        summary_of(request).exemplars == exemplars,
        responded(summary_of(request), DeliveryResultView::Delivered(delivery)) == (ResponseView {
            status: NO_CONTENT,
            headers: seq![
                (SAMPLES_WRITTEN@, decimal_text(samples as int)),
                (HISTOGRAMS_WRITTEN@, decimal_text(histograms as int)),
                (EXEMPLARS_WRITTEN@, decimal_text(exemplars as int)),
            ],
            body: Seq::empty(),
        }),
{
    lemma_request_entries(raw);
}

/// A request with sound headers whose body does not decompress is answered
/// with 400 and the decoder's text, and nothing is sent to the broker.
pub proof fn law_corrupt_body(
    content_encoding: HeaderLookupView,
    content_type: HeaderLookupView,
    body: Seq<u8>,
    text: Seq<char>,
)
    requires
        encoding_of(content_encoding) is Ok,
        content_type_of(content_type) is Ok,
    ensures
        rejected_with(received(content_encoding, content_type, Err(text), body), BAD_REQUEST),
        sends_nothing(received(content_encoding, content_type, Err(text), body)),
        received(content_encoding, content_type, Err(text), body) == StepView::Reject(
            IngestErrorView { kind: ErrorKind::DecompressionFailed, message: text },
        ),
{
}

/// A request with sound headers whose body decompresses to what is no
/// well-formed request is answered with 400, and nothing is sent to the
/// broker.
pub proof fn law_malformed_payload(
    content_encoding: HeaderLookupView,
    content_type: HeaderLookupView,
    body: Seq<u8>,
    raw: Seq<u8>,
    cause: DecodeError,
)
    requires
        encoding_of(content_encoding) is Ok,
        content_type_of(content_type) is Ok,
        request_of(raw) == Err::<RemoteWriteRequestView, DecodeError>(cause),
    ensures
        rejected_with(received(content_encoding, content_type, Ok(raw), body), BAD_REQUEST),
        sends_nothing(received(content_encoding, content_type, Ok(raw), body)),
        received(content_encoding, content_type, Ok(raw), body) == StepView::Reject(
            IngestErrorView { kind: ErrorKind::DecodeFailed { cause }, message: decode_failure_text(cause) },
        ),
{
}

/// A forwarded request that the broker does not take, for whatever reason,
/// is answered with 500 and the producer's description of the failure. The
/// answer is final: the handler asks for no second attempt.
pub proof fn law_broker_failure(summary: IngestionSummary, kind: FailureKind, description: Seq<char>)
    ensures
        responded(summary, DeliveryResultView::Failed { kind, description }) == (ResponseView {
            status: INTERNAL_SERVER_ERROR,
            headers: Seq::empty(),
            body: description,
        }),
{
}

/// The handler does not deduplicate: what becomes of a request depends on
/// that request alone, so a request that was forwarded is, when it arrives
/// again, forwarded again, as a message with the same content.
pub proof fn law_no_deduplication(
    content_encoding: HeaderLookupView,
    content_type: HeaderLookupView,
    inflated: Result<Seq<u8>, Seq<char>>,
    body: Seq<u8>,
    again_encoding: HeaderLookupView,
    again_type: HeaderLookupView,
    again_inflated: Result<Seq<u8>, Seq<char>>,
    again_body: Seq<u8>,
)
    requires
        received(content_encoding, content_type, inflated, body) is Forward,
        again_encoding == content_encoding,
        again_type == content_type,
        again_inflated == inflated,
        again_body == body,
    ensures
        received(again_encoding, again_type, again_inflated, again_body) is Forward,
        received(again_encoding, again_type, again_inflated, again_body) == received(
            content_encoding,
            content_type,
            inflated,
            body,
        ),
{
}

/// Requests do not mix: of any number of sound requests, each is forwarded
/// as its own message, which holds its own body, and with the totals of
/// its own batch.
pub proof fn law_requests_are_independent(
    content_encoding: HeaderLookupView,
    content_type: HeaderLookupView,
    bodies: Seq<Seq<u8>>,
    raws: Seq<Seq<u8>>,
    requests: Seq<RemoteWriteRequestView>,
)
    requires
        encoding_of(content_encoding) is Ok,
        content_type_of(content_type) is Ok,
        bodies.len() == raws.len() == requests.len(),
        forall|i: int|
            0 <= i < raws.len() ==> #[trigger] request_of(raws[i]) == Ok::<RemoteWriteRequestView, DecodeError>(
                requests[i],
            ),
    ensures
        forall|i: int|
            0 <= i < raws.len() ==> #[trigger] received(content_encoding, content_type, Ok(raws[i]), bodies[i])
                == (StepView::Forward { request: forwarded(bodies[i]), summary: summary_of(requests[i]) }),
{
    assert forall|i: int| 0 <= i < raws.len() implies #[trigger] received(
        content_encoding,
        content_type,
        Ok(raws[i]),
        bodies[i],
    ) == (StepView::Forward { request: forwarded(bodies[i]), summary: summary_of(requests[i]) }) by {
        assert(request_of(raws[i]) == Ok::<RemoteWriteRequestView, DecodeError>(requests[i]));
    }
}

/// The stages of a request are strictly sequential: it starts at the
/// first, ends with the answer, never goes back, and runs no stage behind
/// one that failed. The message is produced if and only if nothing fails.
pub proof fn law_stages_in_order(failure: Option<ErrorKind>)
    ensures
        path_of(failure).len() >= 2,
        path_of(failure).first() == Stage::Start,
        path_of(failure).last() == Stage::Responded,
        forall|i: int, j: int|
            0 <= i < j < path_of(failure).len() ==> stage_rank(#[trigger] path_of(failure)[i]) < stage_rank(
                #[trigger] path_of(failure)[j],
            ),
        path_of(failure).contains(Stage::Produced) <==> failure is None,
{
    let path = path_of(failure);
    match failure {
        None => {
            assert(path[6] == Stage::Produced);
        },
        Some(kind) => {
            assert forall|i: int| 0 <= i < path.len() implies path[i] != Stage::Produced by {}
        },
    }
}

} // verus!

//! The ingestion handler: what becomes of one request.
//!
//! A request passes its stages in order and stops at the first that fails:
//! encoding, content type, decompression, decoding, summary. A request that
//! passes them all is forwarded: the handler hands out one message for the
//! broker, and answers once the broker has. The handler keeps nothing from
//! one request to the next, so the same request sent twice is forwarded
//! twice.

use crate::compression::{decompress_body, decompressed_of, snappy_decoded};
use crate::error::{
    decode_failure_text, stage_before, ErrorKind, IngestError, IngestErrorView, Stage,
    INTERNAL_SERVER_ERROR,
};
use crate::message_broker::{
    forwarded, DeliveryResult, DeliveryResultView, FailureKind, ProduceRequest,
    ProduceRequestView, Producer,
};
use crate::remote_write::{
    decode_request, lemma_request_entries, request_of, RemoteWriteRequestView,
};
use crate::response::{acceptance, not_found, rejection, Response, ResponseView};
use crate::summary::{summarize, summary_of, IngestionSummary};
use crate::validation::{
    check_content_encoding, check_content_type, content_type_of, encoding_of, header_lookup,
    negotiate_content_type, negotiate_encoding, HeaderLookup, HeaderLookupView, CONTENT_ENCODING,
    CONTENT_TYPE,
};
use crate::wire::DecodeError;
use axum::http::HeaderMap;
use vstd::prelude::*;

verus! {

/// What the handler does with a request once it has looked at it.
#[derive(Clone, Debug, PartialEq, Eq)]
pub enum Step {
    /// The request failed: answer with the failure, send nothing.
    Reject(IngestError),
    /// The request is sound: send this one message, and answer with the
    /// summary once the broker has taken it.
    Forward { request: ProduceRequest, summary: IngestionSummary },
}

/// A step as a value.
pub enum StepView {
    Reject(IngestErrorView),
    Forward { request: ProduceRequestView, summary: IngestionSummary },
}

impl View for Step {
    type V = StepView;

    open spec fn view(&self) -> StepView {
        match self {
            Step::Reject(e) => StepView::Reject(e@),
            Step::Forward { request, summary } => StepView::Forward { request: request@, summary: *summary },
        }
    }
}

/// The last stage that a request has passed when the handler hands out the
/// step: the stage before its failure, or the summary.
pub open spec fn stage_reached(step: StepView) -> Stage {
    match step {
        StepView::Reject(e) => stage_before(e.kind),
        StepView::Forward { .. } => Stage::Summarized,
    }
}

impl Step {
    /// The last stage that the request has passed.
    pub fn reached(&self) -> (stage: Stage)
        ensures
            stage == stage_reached(self@),
    {
        match self {
            Step::Reject(e) => e.kind.failed_after(),
            Step::Forward { .. } => Stage::Summarized,
        }
    }
}

/// What becomes of a request whose decompressed body decodes as `decoded`:
/// the original body is forwarded with the totals of the request.
pub open spec fn decoded_step(decoded: Result<RemoteWriteRequestView, DecodeError>, body: Seq<u8>) -> StepView {
    match decoded {
        Err(cause) => StepView::Reject(
            IngestErrorView { kind: ErrorKind::DecodeFailed { cause }, message: decode_failure_text(cause) },
        ),
        Ok(request) => StepView::Forward { request: forwarded(body), summary: summary_of(request) },
    }
}

/// What becomes of a request with sound headers whose body decompresses
/// as `inflated`.
pub open spec fn inflated_step(inflated: Result<Seq<u8>, Seq<char>>, body: Seq<u8>) -> StepView {
    match decompressed_of(inflated) {
        Err(e) => StepView::Reject(e),
        Ok(raw) => decoded_step(request_of(raw), body),
    }
}

/// What becomes of a request, by what it says under its two headers, its
/// body, and what the body decompresses to.
pub open spec fn received(
    content_encoding: HeaderLookupView,
    content_type: HeaderLookupView,
    inflated: Result<Seq<u8>, Seq<char>>,
    body: Seq<u8>,
) -> StepView {
    match encoding_of(content_encoding) {
        Err(e) => StepView::Reject(e),
        Ok(_) => match content_type_of(content_type) {
            Err(e) => StepView::Reject(e),
            Ok(_) => inflated_step(inflated, body),
        },
    }
}

/// The failure that a broker's refusal is to the client.
pub open spec fn broker_failure(kind: FailureKind, description: Seq<char>) -> IngestErrorView {
    IngestErrorView {
        kind: match kind {
            FailureKind::BrokerUnavailable => ErrorKind::BrokerUnavailable,
            FailureKind::DeliveryTimeout => ErrorKind::DeliveryTimeout,
            FailureKind::MessageRejected => ErrorKind::MessageRejected,
        },
        message: description,
    }
}

/// The answer to a forwarded request, by how its delivery ended.
pub open spec fn responded(summary: IngestionSummary, delivery: DeliveryResultView) -> ResponseView {
    match delivery {
        DeliveryResultView::Delivered(_) => acceptance(summary),
        DeliveryResultView::Failed { kind, description } => rejection(broker_failure(kind, description)),
    }
}

/// Decodes and summarises the decompressed body of a request with sound
/// headers, and forwards the body as it arrived.
pub fn ingest_decompressed(decompressed: Result<Vec<u8>, IngestError>, body: &[u8]) -> (step: Step)
    ensures
        step@ == (match decompressed {
            Err(e) => StepView::Reject(e@),
            Ok(raw) => decoded_step(request_of(raw@), body@),
        }),
{
    let raw = match decompressed {
        Ok(raw) => raw,
        Err(e) => {
            return Step::Reject(e);
        },
    };
    let request = match decode_request(raw.as_slice()) {
        Ok(request) => request,
        Err(cause) => {
            return Step::Reject(IngestError::decode_failed(cause));
        },
    };
    proof {
        lemma_request_entries(raw@);
    }
    let summary = summarize(&request);
    Step::Forward { request: ProduceRequest::forwarding(body), summary }
}

/// Passes a request through its stages, given what it says under its two
/// headers.
pub fn ingest(content_encoding: &HeaderLookup, content_type: &HeaderLookup, body: &[u8]) -> (step: Step)
    ensures
        step@ == received(content_encoding@, content_type@, snappy_decoded(body@), body@),
{
    let encoding = match negotiate_encoding(content_encoding) {
        Ok(encoding) => encoding,
        Err(e) => {
            return Step::Reject(e);
        },
    };
    match negotiate_content_type(content_type) {
        Ok(_) => {},
        Err(e) => {
            return Step::Reject(e);
        },
    }
    ingest_decompressed(decompress_body(encoding, body), body)
}

/// Passes a request through its stages.
pub fn receive(headers: &HeaderMap, body: &[u8]) -> (step: Step)
    ensures
        step@ == received(
            header_lookup(*headers, CONTENT_ENCODING@),
            header_lookup(*headers, CONTENT_TYPE@),
            snappy_decoded(body@),
            body@,
        ),
{
    let encoding = match check_content_encoding(headers) {
        Ok(encoding) => encoding,
        Err(e) => {
            return Step::Reject(e);
        },
    };
    match check_content_type(headers) {
        Ok(_) => {},
        Err(e) => {
            return Step::Reject(e);
        },
    }
    ingest_decompressed(decompress_body(encoding, body), body)
}

/// Answers a forwarded request once its delivery has ended.
pub fn respond(summary: &IngestionSummary, delivery: &DeliveryResult) -> (response: Response)
    ensures
        response@ == responded(*summary, delivery@),
{
    match delivery {
        DeliveryResult::Delivered(_) => Response::accepting(summary),
        DeliveryResult::Failed(failure) => {
            let kind = match failure.kind {
                FailureKind::BrokerUnavailable => ErrorKind::BrokerUnavailable,
                FailureKind::DeliveryTimeout => ErrorKind::DeliveryTimeout,
                FailureKind::MessageRejected => ErrorKind::MessageRejected,
            };
            let e = IngestError { kind, message: failure.description.clone() };
            Response::rejecting(&e)
        },
    }
}

/// What a request is answered with, however its delivery ended, if it
/// came to one: a request that fails with its failure, and one that is
/// forwarded with its counts, or with 500 and the producer's words.
pub open spec fn answered(step: StepView, response: ResponseView) -> bool {
    match step {
        StepView::Reject(e) => response == rejection(e),
        StepView::Forward { request, summary } => response == acceptance(summary) || response == (ResponseView {
            status: INTERNAL_SERVER_ERROR,
            headers: Seq::empty(),
            body: response.body,
        }),
    }
}

/// Serves a request from its headers to its answer: passes it through its
/// stages, has the producer publish the one message of a request that
/// passes them, and answers by how the delivery ended. The producer is not
/// called for a request that fails, and never more than once.
pub fn handle<P: Producer>(producer: &P, headers: &HeaderMap, body: &[u8]) -> (response: Response)
    ensures
        answered(
            received(
                header_lookup(*headers, CONTENT_ENCODING@),
                header_lookup(*headers, CONTENT_TYPE@),
                snappy_decoded(body@),
                body@,
            ),
            response@,
        ),
{
    let step = receive(headers, body);
    let ghost seen = step@;
    match step {
        Step::Reject(e) => {
            let response = reject(&e);
            assert(seen == StepView::Reject(e@));
            assert(answered(seen, response@));
            response
        },
        Step::Forward { request, summary } => {
            let delivery = producer.produce(&request);
            let response = respond(&summary, &delivery);
            assert(seen == (StepView::Forward { request: request@, summary }));
            assert(response@ == responded(summary, delivery@));
            assert(answered(seen, response@));
            response
        },
    }
}

/// Answers a request that was not forwarded.
pub fn reject(e: &IngestError) -> (response: Response)
    ensures
        response@ == rejection(e@),
{
    Response::rejecting(e)
}

/// Answers a request for any other path or method.
pub fn handler_fallback() -> (response: Response)
    ensures
        response@ == not_found(),
{
    Response::missing()
}

} // verus!

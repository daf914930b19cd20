use axum::http::{HeaderMap, HeaderValue};
use prost::encoding::{encode_key, encode_varint, WireType};
use remote_write_adapter::compression::{decompress_body, decompression_outcome};
use remote_write_adapter::error::{stages_passed, ErrorKind, IngestError, Stage};
use remote_write_adapter::handler::{
    handle, handler_fallback, ingest, ingest_decompressed, receive, reject, respond, Step,
};
use remote_write_adapter::message_broker::{
    Delivery, DeliveryResult, FailureKind, ProduceFailure, ProduceRequest, Producer, DELIVERY_TIMEOUT_SECS,
    INGEST_TOPIC,
};
use std::cell::RefCell;
use remote_write_adapter::response::Response;
use remote_write_adapter::summary::IngestionSummary;
use remote_write_adapter::validation::{
    bytes_equal, check_content_encoding, check_content_type, negotiate_content_type, negotiate_encoding,
    ContentType, Encoding, HeaderLookup,
};
use remote_write_adapter::wire::DecodeError;

const MEDIA_TYPE: &str = "application/x-protobuf;proto=io.prometheus.write.v2.Request";

fn embed(tag: u32, inner: &[u8], out: &mut Vec<u8>) {
    encode_key(tag, WireType::LengthDelimited, out);
    encode_varint(inner.len() as u64, out);
    out.extend_from_slice(inner);
}

fn sample(value: f64, timestamp: i64) -> Vec<u8> {
    let mut out = Vec::new();
    prost::encoding::double::encode(1, &value, &mut out);
    prost::encoding::int64::encode(2, &timestamp, &mut out);
    out
}

fn histogram(sum: f64, timestamp: i64) -> Vec<u8> {
    let mut out = Vec::new();
    prost::encoding::uint64::encode(1, &7, &mut out);
    prost::encoding::double::encode(3, &sum, &mut out);
    prost::encoding::int64::encode(15, &timestamp, &mut out);
    out
}

fn exemplar(value: f64, timestamp: i64) -> Vec<u8> {
    let mut out = Vec::new();
    prost::encoding::uint32::encode_packed(1, &[1, 2], &mut out);
    prost::encoding::double::encode(2, &value, &mut out);
    prost::encoding::int64::encode(3, &timestamp, &mut out);
    out
}

fn series(samples: usize, histograms: usize, exemplars: usize) -> Vec<u8> {
    let mut out = Vec::new();
    prost::encoding::uint32::encode_packed(1, &[0, 1], &mut out);
    for i in 0..samples {
        embed(2, &sample(i as f64 + 0.5, 1_700_000_000_000 + i as i64), &mut out);
    }
    for i in 0..histograms {
        embed(3, &histogram(i as f64 + 0.5, 1_700_000_000_000 + i as i64), &mut out);
    }
    for i in 0..exemplars {
        embed(4, &exemplar(i as f64 + 0.5, 1_700_000_000_000 + i as i64), &mut out);
    }
    out
}

fn batch(shape: &[(usize, usize, usize)]) -> Vec<u8> {
    let mut out = Vec::new();
    prost::encoding::string::encode(4, &"__name__".to_string(), &mut out);
    prost::encoding::string::encode(4, &"up".to_string(), &mut out);
    for (samples, histograms, exemplars) in shape {
        embed(5, &series(*samples, *histograms, *exemplars), &mut out);
    }
    out
}

fn compress(raw: &[u8]) -> Vec<u8> {
    snap::raw::Encoder::new().compress_vec(raw).unwrap()
}

fn headers_with(encoding: Option<&[u8]>, media_type: Option<&[u8]>) -> HeaderMap {
    let mut headers = HeaderMap::new();
    headers.insert("host", HeaderValue::from_static("gateway.example"));
    if let Some(value) = encoding {
        headers.insert("content-encoding", HeaderValue::from_bytes(value).unwrap());
    }
    if let Some(value) = media_type {
        headers.insert("content-type", HeaderValue::from_bytes(value).unwrap());
    }
    headers
}

fn sound_headers() -> HeaderMap {
    headers_with(Some(b"snappy"), Some(MEDIA_TYPE.as_bytes()))
}

fn header<'a>(headers: &'a [(String, String)], name: &str) -> &'a str {
    let found: Vec<&(String, String)> = headers.iter().filter(|(n, _)| n == name).collect();
    assert_eq!(found.len(), 1);
    &found[0].1
}

fn rejected(step: Step) -> IngestError {
    match step {
        Step::Reject(e) => e,
        Step::Forward { .. } => panic!("forwarded"),
    }
}

fn forwarded(step: Step) -> (ProduceRequest, IngestionSummary) {
    match step {
        Step::Forward { request, summary } => (request, summary),
        Step::Reject(e) => panic!("rejected: {}", e.message),
    }
}

#[test]
fn missing_content_encoding_is_unsupported_media_type() {
    let body = compress(&batch(&[(1, 0, 0)]));
    let e = rejected(receive(&headers_with(None, Some(MEDIA_TYPE.as_bytes())), &body));
    assert_eq!(e.kind, ErrorKind::MissingEncoding);
    assert_eq!(e.message, "missing Content-Encoding header");
    let response = reject(&e);
    assert_eq!(response.status, 415);
    assert_eq!(response.body, "missing Content-Encoding header");
    assert!(response.headers.is_empty());
    // no header at all
    let e = rejected(receive(&HeaderMap::new(), &body));
    assert_eq!(e.kind, ErrorKind::MissingEncoding);
}

#[test]
fn empty_content_encoding_counts_as_missing() {
    let body = compress(&batch(&[(1, 0, 0)]));
    let e = rejected(receive(&headers_with(Some(b""), Some(MEDIA_TYPE.as_bytes())), &body));
    assert_eq!(e.kind, ErrorKind::MissingEncoding);
    assert_eq!(e.message, "missing Content-Encoding header");
    assert_eq!(e.status(), 415);
}

#[test]
fn identity_encoding_is_unsupported_media_type() {
    let body = compress(&batch(&[(1, 0, 0)]));
    for token in ["identity", "gzip", "Snappy", "snappy ", "snapp", "snappyy", "zstd"] {
        let e = rejected(receive(&headers_with(Some(token.as_bytes()), Some(MEDIA_TYPE.as_bytes())), &body));
        assert_eq!(e.kind, ErrorKind::UnsupportedEncoding, "{}", token);
        assert_eq!(e.message, "unknown encoding, only snappy supported");
        assert_eq!(reject(&e).status, 415);
    }
}

#[test]
fn missing_content_type_is_unsupported_media_type() {
    // the body is no snappy block: it is never looked at
    let e = rejected(receive(&headers_with(Some(b"snappy"), None), b"\xff\xff\xff"));
    assert_eq!(e.kind, ErrorKind::MissingContentType);
    assert_eq!(e.message, "missing Content-Type header");
    assert_eq!(reject(&e).status, 415);
    let e = rejected(receive(&headers_with(Some(b"snappy"), Some(b"")), b"\xff\xff\xff"));
    assert_eq!(e.kind, ErrorKind::MissingContentType);
    assert_eq!(e.kind.failed_after(), Stage::EncodingValidated);
}

#[test]
fn other_content_type_is_echoed() {
    let e = rejected(receive(&headers_with(Some(b"snappy"), Some(b"application/json")), b""));
    assert_eq!(e.kind, ErrorKind::UnsupportedContentType);
    assert_eq!(e.message, "Unknown remote write content type: \"application/json\"");
    assert_eq!(reject(&e).status, 415);
    let odd = b"text/\"plain\";\tq=\xe9\x80";
    let e = rejected(receive(&headers_with(Some(b"snappy"), Some(odd)), b""));
    assert_eq!(e.message, "Unknown remote write content type: \"text/\\\"plain\\\";\tq=\\xe9\\x80\"");
    // the message is what the header value prints as
    let value = HeaderValue::from_bytes(odd).unwrap();
    assert_eq!(e.message, format!("Unknown remote write content type: {:?}", value));
    // the media type of the first version is not taken
    let e = rejected(receive(&headers_with(Some(b"snappy"), Some(b"application/x-protobuf")), b""));
    assert_eq!(e.kind, ErrorKind::UnsupportedContentType);
}

#[test]
fn encoding_is_checked_before_content_type() {
    let e = rejected(receive(&headers_with(Some(b"gzip"), Some(b"application/json")), b""));
    assert_eq!(e.kind, ErrorKind::UnsupportedEncoding);
    assert_eq!(e.kind.failed_after(), Stage::Start);
    let e = rejected(receive(&headers_with(None, None), b""));
    assert_eq!(e.kind, ErrorKind::MissingEncoding);
}

#[test]
fn header_names_are_found_in_any_case_and_first_value_counts() {
    let mut headers = HeaderMap::new();
    headers.append("CONTENT-ENCODING", HeaderValue::from_static("snappy"));
    headers.append("content-encoding", HeaderValue::from_static("gzip"));
    headers.append("Content-Type", HeaderValue::from_static(MEDIA_TYPE));
    assert_eq!(check_content_encoding(&headers), Ok(Encoding::Snappy));
    assert_eq!(check_content_type(&headers), Ok(ContentType::RemoteWriteV2));
    assert_eq!(HeaderLookup::find(&headers, "Content-Encoding"), HeaderLookup::Present(b"snappy".to_vec()));
    assert_eq!(HeaderLookup::find(&headers, "content-type"), HeaderLookup::Present(MEDIA_TYPE.as_bytes().to_vec()));
    assert_eq!(HeaderLookup::find(&headers, "accept"), HeaderLookup::Absent);
    headers.insert("accept", HeaderValue::from_static(""));
    assert_eq!(HeaderLookup::find(&headers, "Accept"), HeaderLookup::Empty);

    let mut headers = HeaderMap::new();
    headers.append("content-encoding", HeaderValue::from_static("gzip"));
    headers.append("content-encoding", HeaderValue::from_static("snappy"));
    assert_eq!(check_content_encoding(&headers).unwrap_err().kind, ErrorKind::UnsupportedEncoding);
}

#[test]
fn lookups_decide_without_a_header_map() {
    assert_eq!(Encoding::Snappy.token(), "snappy");
    assert_eq!(ContentType::RemoteWriteV2.media_type(), MEDIA_TYPE);
    assert_eq!(HeaderLookup::classify(None), HeaderLookup::Absent);
    assert_eq!(HeaderLookup::classify(Some(vec![])), HeaderLookup::Empty);
    assert_eq!(HeaderLookup::classify(Some(vec![b'x'])), HeaderLookup::Present(vec![b'x']));
    assert_eq!(negotiate_encoding(&HeaderLookup::Present(b"snappy".to_vec())), Ok(Encoding::Snappy));
    assert_eq!(negotiate_encoding(&HeaderLookup::Absent).unwrap_err().kind, ErrorKind::MissingEncoding);
    assert_eq!(negotiate_encoding(&HeaderLookup::Empty).unwrap_err().kind, ErrorKind::MissingEncoding);
    assert_eq!(
        negotiate_encoding(&HeaderLookup::Present(b"identity".to_vec())).unwrap_err().kind,
        ErrorKind::UnsupportedEncoding
    );
    assert_eq!(
        negotiate_content_type(&HeaderLookup::Present(MEDIA_TYPE.as_bytes().to_vec())),
        Ok(ContentType::RemoteWriteV2)
    );
    assert_eq!(negotiate_content_type(&HeaderLookup::Absent).unwrap_err().kind, ErrorKind::MissingContentType);
    assert_eq!(negotiate_content_type(&HeaderLookup::Empty).unwrap_err().kind, ErrorKind::MissingContentType);
    assert!(bytes_equal(b"abc", b"abc"));
    assert!(!bytes_equal(b"abc", b"abd"));
    assert!(!bytes_equal(b"abc", b"ab"));
    assert!(bytes_equal(b"", b""));
}

#[test]
fn valid_request_is_forwarded_with_the_body_as_it_arrived() {
    let body = compress(&batch(&[(2, 1, 0), (0, 0, 3), (5, 2, 1)]));
    let (request, summary) = forwarded(receive(&sound_headers(), &body));
    assert_eq!(request.topic, "raw_metrics");
    assert_eq!(request.topic, INGEST_TOPIC);
    assert!(request.key.is_empty());
    assert_eq!(request.value, body);
    assert!(request.headers.is_empty());
    assert_eq!(summary, IngestionSummary { samples: 7, histograms: 3, exemplars: 4 });
    let delivered = DeliveryResult::Delivered(Delivery { partition: 0, offset: 42 });
    let response = respond(&summary, &delivered);
    assert_eq!(response.status, 204);
    assert_eq!(response.body, "");
    assert_eq!(response.headers.len(), 3);
    assert_eq!(header(&response.headers, "X-Prometheus-Remote-Write-Samples-Written"), "7");
    assert_eq!(header(&response.headers, "X-Prometheus-Remote-Write-Histograms-Written"), "3");
    assert_eq!(header(&response.headers, "X-Prometheus-Remote-Write-Exemplars-Written"), "4");
}

#[test]
fn counts_are_reported_for_any_spread_over_series() {
    let shapes: [&[(usize, usize, usize)]; 6] = [
        &[],
        &[(0, 0, 0)],
        &[(1, 1, 1)],
        &[(120, 0, 0), (0, 37, 0), (0, 0, 9)],
        &[(1, 0, 0); 130],
        &[(3, 2, 1), (0, 0, 0), (4, 4, 4), (10, 0, 2)],
    ];
    for shape in shapes {
        let body = compress(&batch(shape));
        let (request, summary) = forwarded(receive(&sound_headers(), &body));
        let expected = IngestionSummary {
            samples: shape.iter().map(|s| s.0 as i64).sum(),
            histograms: shape.iter().map(|s| s.1 as i64).sum(),
            exemplars: shape.iter().map(|s| s.2 as i64).sum(),
        };
        assert_eq!(summary, expected);
        assert_eq!(request.value, body);
        let response = respond(&summary, &DeliveryResult::Delivered(Delivery { partition: 3, offset: 1 }));
        assert_eq!(response.status, 204);
        assert_eq!(
            header(&response.headers, "X-Prometheus-Remote-Write-Samples-Written"),
            expected.samples.to_string()
        );
        assert_eq!(
            header(&response.headers, "X-Prometheus-Remote-Write-Histograms-Written"),
            expected.histograms.to_string()
        );
        assert_eq!(
            header(&response.headers, "X-Prometheus-Remote-Write-Exemplars-Written"),
            expected.exemplars.to_string()
        );
    }
}

#[test]
fn corrupt_body_is_bad_request() {
    let sound = compress(&batch(&[(50, 3, 2)]));
    // truncated
    let e = rejected(receive(&sound_headers(), &sound[..sound.len() / 2]));
    assert_eq!(e.kind, ErrorKind::DecompressionFailed);
    assert_eq!(reject(&e).status, 400);
    let theirs = snap::raw::Decoder::new().decompress_vec(&sound[..sound.len() / 2]).unwrap_err();
    assert_eq!(e.message, theirs.to_string());
    assert_eq!(reject(&e).body, theirs.to_string());
    // empty
    let e = rejected(receive(&sound_headers(), b""));
    assert_eq!(e.kind, ErrorKind::DecompressionFailed);
    assert_eq!(e.message, "snappy: corrupt input (empty)");
    // not compressed at all
    let e = rejected(receive(&sound_headers(), &batch(&[(50, 3, 2)])));
    assert_eq!(e.kind, ErrorKind::DecompressionFailed);
    assert_eq!(e.kind.failed_after(), Stage::ContentTypeValidated);
    assert_eq!(reject(&e).status, 400);
}

#[test]
fn decompression_gives_back_what_was_compressed() {
    let raw = batch(&[(9, 9, 9)]);
    let body = compress(&raw);
    assert!(body != raw);
    assert_eq!(decompress_body(Encoding::Snappy, &body), Ok(raw.clone()));
    assert_eq!(decompress_body(Encoding::Snappy, &compress(b"")), Ok(vec![]));
    assert_eq!(decompression_outcome(Ok(vec![1, 2, 3])), Ok(vec![1, 2, 3]));
    assert_eq!(
        decompression_outcome(Err("snappy: corrupt input (empty)".to_string())),
        Err(IngestError { kind: ErrorKind::DecompressionFailed, message: "snappy: corrupt input (empty)".to_string() })
    );
}

#[test]
fn malformed_payload_is_bad_request() {
    let mut raw = batch(&[(2, 0, 0)]);
    raw.truncate(raw.len() - 3);
    let e = rejected(receive(&sound_headers(), &compress(&raw)));
    assert_eq!(e.kind, ErrorKind::DecodeFailed { cause: DecodeError::BufferUnderflow });
    assert_eq!(e.message, "failed to decode Protobuf message: buffer underflow");
    assert_eq!(e.kind.failed_after(), Stage::Decompressed);
    let response = reject(&e);
    assert_eq!(response.status, 400);
    assert_eq!(response.body, "failed to decode Protobuf message: buffer underflow");
    let e = rejected(receive(&sound_headers(), &compress(&[0x2a, 0x02, 0x17, 0x00])));
    assert_eq!(e.kind, ErrorKind::DecodeFailed { cause: DecodeError::InvalidWireType { value: 7 } });
    assert_eq!(e.message, "failed to decode Protobuf message: invalid wire type value: 7");
}

#[test]
fn stages_behind_decompression_take_its_outcome() {
    let raw = batch(&[(1, 2, 3)]);
    let (request, summary) = forwarded(ingest_decompressed(Ok(raw), b"the body as it came"));
    assert_eq!(request.value, b"the body as it came".to_vec());
    assert_eq!(request.topic, "raw_metrics");
    assert_eq!(summary, IngestionSummary { samples: 1, histograms: 2, exemplars: 3 });
    let e = IngestError { kind: ErrorKind::DecompressionFailed, message: "no".to_string() };
    assert_eq!(ingest_decompressed(Err(e.clone()), b"x"), Step::Reject(e));
    assert_eq!(
        rejected(ingest_decompressed(Ok(vec![0x00]), b"x")).kind,
        ErrorKind::DecodeFailed { cause: DecodeError::InvalidTag }
    );
}

#[test]
fn ingest_takes_lookups_in_place_of_a_header_map() {
    let body = compress(&batch(&[(4, 0, 0)]));
    let encoding = HeaderLookup::Present(b"snappy".to_vec());
    let media_type = HeaderLookup::Present(MEDIA_TYPE.as_bytes().to_vec());
    let (request, summary) = forwarded(ingest(&encoding, &media_type, &body));
    assert_eq!(request.value, body);
    assert_eq!(summary.samples, 4);
    assert_eq!(ingest(&encoding, &media_type, &body).reached(), Stage::Summarized);
    assert_eq!(ingest(&encoding, &HeaderLookup::Absent, &body).reached(), Stage::EncodingValidated);
    assert_eq!(ingest(&encoding, &media_type, b"").reached(), Stage::ContentTypeValidated);
    assert_eq!(rejected(ingest(&HeaderLookup::Absent, &media_type, &body)).kind, ErrorKind::MissingEncoding);
    assert_eq!(rejected(ingest(&encoding, &HeaderLookup::Empty, &body)).kind, ErrorKind::MissingContentType);
    assert_eq!(receive(&sound_headers(), &body), ingest(&encoding, &media_type, &body));
}

#[test]
fn broker_timeout_is_internal_server_error() {
    let summary = IngestionSummary { samples: 1, histograms: 0, exemplars: 0 };
    let text = "Message production error: MessageTimedOut (Local: Message timed out)";
    for kind in [FailureKind::DeliveryTimeout, FailureKind::BrokerUnavailable, FailureKind::MessageRejected] {
        let failed = DeliveryResult::Failed(ProduceFailure { kind, description: text.to_string() });
        let response = respond(&summary, &failed);
        assert_eq!(response.status, 500);
        assert_eq!(response.body, text);
        assert!(response.headers.is_empty());
    }
    assert!(FailureKind::DeliveryTimeout.retryable());
    assert!(FailureKind::BrokerUnavailable.retryable());
    assert!(!FailureKind::MessageRejected.retryable());
    assert_eq!(DELIVERY_TIMEOUT_SECS, 5);
}

#[test]
fn identical_requests_are_forwarded_twice() {
    let body = compress(&batch(&[(2, 2, 2)]));
    let first = receive(&sound_headers(), &body);
    let second = receive(&sound_headers(), &body);
    assert_eq!(first, second);
    let (one, _) = forwarded(first);
    let (two, _) = forwarded(second);
    assert_eq!(one.value, body);
    assert_eq!(two.value, body);
}

#[test]
fn interleaved_requests_keep_their_own_counts() {
    let shapes: Vec<Vec<(usize, usize, usize)>> =
        (0..12).map(|i| vec![(i, 2 * i, 0), (1, 0, i % 3)]).collect();
    let bodies: Vec<Vec<u8>> = shapes.iter().map(|s| compress(&batch(s))).collect();
    let steps: Vec<Step> = bodies.iter().map(|b| receive(&sound_headers(), b)).collect();
    for ((shape, body), step) in shapes.iter().zip(bodies.iter()).zip(steps.into_iter().rev().collect::<Vec<_>>().into_iter().rev()) {
        let (request, summary) = forwarded(step);
        assert_eq!(&request.value, body);
        let i = shape[0].0 as i64;
        assert_eq!(summary, IngestionSummary { samples: i + 1, histograms: 2 * i, exemplars: i % 3 });
        let response = respond(&summary, &DeliveryResult::Delivered(Delivery { partition: 0, offset: i }));
        assert_eq!(header(&response.headers, "X-Prometheus-Remote-Write-Samples-Written"), (i + 1).to_string());
    }
}

#[test]
fn error_kinds_have_their_status_and_stage() {
    let cases = [
        (ErrorKind::MissingEncoding, 415, false, Stage::Start),
        (ErrorKind::UnsupportedEncoding, 415, false, Stage::Start),
        (ErrorKind::MissingContentType, 415, false, Stage::EncodingValidated),
        (ErrorKind::UnsupportedContentType, 415, false, Stage::EncodingValidated),
        (ErrorKind::DecompressionFailed, 400, false, Stage::ContentTypeValidated),
        (ErrorKind::DecodeFailed { cause: DecodeError::InvalidTag }, 400, false, Stage::Decompressed),
        (ErrorKind::BrokerUnavailable, 500, true, Stage::Summarized),
        (ErrorKind::DeliveryTimeout, 500, true, Stage::Summarized),
        (ErrorKind::MessageRejected, 500, false, Stage::Summarized),
    ];
    for (kind, status, retryable, stage) in cases {
        assert_eq!(kind.status(), status);
        assert_eq!(kind.retryable(), retryable);
        assert_eq!(kind.failed_after(), stage);
        let e = IngestError::with_text(kind, "why");
        assert_eq!(e.status(), status);
        assert_eq!(Response::rejecting(&e), Response { status, headers: vec![], body: "why".to_string() });
    }
}

#[test]
fn unknown_route_is_not_found() {
    let response = handler_fallback();
    assert_eq!(response.status, 404);
    assert_eq!(response.body, "Not found\n");
    assert!(response.headers.is_empty());
    assert_eq!(response, Response::missing());
}

#[test]
fn forwarding_copies_the_body() {
    let request = ProduceRequest::forwarding(&[1, 2, 3]);
    assert_eq!(
        request,
        ProduceRequest { topic: "raw_metrics".to_string(), key: vec![], value: vec![1, 2, 3], headers: vec![] }
    );
    assert_eq!(ProduceRequest::forwarding(&[]).value, Vec::<u8>::new());
}

#[test]
fn stages_run_in_order_and_stop_at_the_first_failure() {
    assert_eq!(
        stages_passed(None),
        vec![Stage::Start, Stage::EncodingValidated, Stage::ContentTypeValidated, Stage::Decompressed, Stage::Decoded, Stage::Summarized, Stage::Produced, Stage::Responded]
    );
    assert_eq!(stages_passed(Some(ErrorKind::MissingEncoding)), vec![Stage::Start, Stage::Responded]);
    assert_eq!(stages_passed(Some(ErrorKind::UnsupportedEncoding)), vec![Stage::Start, Stage::Responded]);
    assert_eq!(stages_passed(Some(ErrorKind::MissingContentType)), vec![Stage::Start, Stage::EncodingValidated, Stage::Responded]);
    assert_eq!(
        stages_passed(Some(ErrorKind::DecompressionFailed)),
        vec![Stage::Start, Stage::EncodingValidated, Stage::ContentTypeValidated, Stage::Responded]
    );
    assert_eq!(
        stages_passed(Some(ErrorKind::DecodeFailed { cause: DecodeError::InvalidVarint })),
        vec![Stage::Start, Stage::EncodingValidated, Stage::ContentTypeValidated, Stage::Decompressed, Stage::Responded]
    );
    assert_eq!(
        stages_passed(Some(ErrorKind::DeliveryTimeout)),
        vec![Stage::Start, Stage::EncodingValidated, Stage::ContentTypeValidated, Stage::Decompressed, Stage::Decoded, Stage::Summarized, Stage::Responded]
    );
    for rank in 0..8u8 {
        assert_eq!(Stage::at_rank(rank).rank(), rank);
    }
    assert_eq!(Stage::at_rank(200), Stage::Responded);
}

/// A producer that keeps what it is asked to publish and ends every
/// delivery in the same way.
struct Recorder {
    asked: RefCell<Vec<ProduceRequest>>,
    outcome: DeliveryResult,
}

impl Recorder {
    fn ending_with(outcome: DeliveryResult) -> Recorder {
        Recorder { asked: RefCell::new(Vec::new()), outcome }
    }

    fn delivering() -> Recorder {
        Recorder::ending_with(DeliveryResult::Delivered(Delivery { partition: 1, offset: 7 }))
    }
}

impl Producer for Recorder {
    fn produce(&self, request: &ProduceRequest) -> DeliveryResult {
        self.asked.borrow_mut().push(request.clone());
        self.outcome.clone()
    }
}

#[test]
fn a_sound_request_is_produced_once_and_answered_with_its_counts() {
    let producer = Recorder::delivering();
    let body = compress(&batch(&[(3, 1, 0), (2, 0, 5)]));
    let response = handle(&producer, &sound_headers(), &body);
    assert_eq!(response.status, 204);
    assert_eq!(response.body, "");
    assert_eq!(header(&response.headers, "X-Prometheus-Remote-Write-Samples-Written"), "5");
    assert_eq!(header(&response.headers, "X-Prometheus-Remote-Write-Histograms-Written"), "1");
    assert_eq!(header(&response.headers, "X-Prometheus-Remote-Write-Exemplars-Written"), "5");
    let asked = producer.asked.borrow();
    assert_eq!(asked.len(), 1);
    assert_eq!(asked[0], ProduceRequest { topic: "raw_metrics".to_string(), key: vec![], value: body, headers: vec![] });
}

#[test]
fn a_failing_request_is_not_produced() {
    let producer = Recorder::delivering();
    let sound = compress(&batch(&[(1, 0, 0)]));
    let mut malformed = batch(&[(1, 0, 0)]);
    malformed.push(0x07);
    let cases: Vec<(HeaderMap, Vec<u8>, u16)> = vec![
        (headers_with(None, Some(MEDIA_TYPE.as_bytes())), sound.clone(), 415),
        (headers_with(Some(b""), Some(MEDIA_TYPE.as_bytes())), sound.clone(), 415),
        (headers_with(Some(b"identity"), Some(MEDIA_TYPE.as_bytes())), sound.clone(), 415),
        (headers_with(Some(b"snappy"), None), sound.clone(), 415),
        (headers_with(Some(b"snappy"), Some(b"text/plain")), sound.clone(), 415),
        (sound_headers(), sound[..sound.len() - 1].to_vec(), 400),
        (sound_headers(), Vec::new(), 400),
        (sound_headers(), compress(&malformed), 400),
    ];
    for (headers, body, status) in cases {
        let response = handle(&producer, &headers, &body);
        assert_eq!(response.status, status);
        assert!(!response.body.is_empty());
        assert!(response.headers.is_empty());
    }
    assert!(producer.asked.borrow().is_empty());
}

#[test]
fn a_broker_failure_is_answered_after_one_attempt() {
    for kind in [FailureKind::DeliveryTimeout, FailureKind::BrokerUnavailable] {
        let producer = Recorder::ending_with(DeliveryResult::Failed(ProduceFailure {
            kind,
            description: "Message production error: AllBrokersDown (Local: All broker connections are down)".to_string(),
        }));
        let body = compress(&batch(&[(1, 1, 1)]));
        let response = handle(&producer, &sound_headers(), &body);
        assert_eq!(response.status, 500);
        assert!(response.body.contains("All broker connections are down"));
        assert_eq!(producer.asked.borrow().len(), 1);
        assert_eq!(producer.asked.borrow()[0].value, body);
    }
}

#[test]
fn the_same_request_sent_twice_is_produced_twice() {
    let producer = Recorder::delivering();
    let body = compress(&batch(&[(2, 0, 0)]));
    let first = handle(&producer, &sound_headers(), &body);
    let second = handle(&producer, &sound_headers(), &body);
    assert_eq!(first, second);
    let asked = producer.asked.borrow();
    assert_eq!(asked.len(), 2);
    assert_eq!(asked[0], asked[1]);
    assert_eq!(asked[0].value, body);
}

#[test]
fn many_requests_on_one_producer_keep_their_own_counts() {
    let producer = Recorder::delivering();
    let bodies: Vec<Vec<u8>> = (0..20usize).map(|i| compress(&batch(&[(i, 20 - i, i % 4)]))).collect();
    let responses: Vec<Response> = bodies.iter().map(|b| handle(&producer, &sound_headers(), b)).collect();
    for (i, response) in responses.iter().enumerate() {
        assert_eq!(response.status, 204);
        assert_eq!(header(&response.headers, "X-Prometheus-Remote-Write-Samples-Written"), i.to_string());
        assert_eq!(header(&response.headers, "X-Prometheus-Remote-Write-Histograms-Written"), (20 - i).to_string());
        assert_eq!(header(&response.headers, "X-Prometheus-Remote-Write-Exemplars-Written"), (i % 4).to_string());
    }
    let asked = producer.asked.borrow();
    assert_eq!(asked.len(), 20);
    for (request, body) in asked.iter().zip(bodies.iter()) {
        assert_eq!(&request.value, body);
    }
}

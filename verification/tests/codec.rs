use prost::bytes::{Buf, BufMut};
use prost::encoding::{
    double, int32, int64, message, sint32, sint64, skip_field, string, uint32, uint64, DecodeContext,
    WireType as ProstWireType,
};
use prost::{DecodeError as ProstDecodeError, Message};
use remote_write_adapter::batch_encoding::encode_request;
use remote_write_adapter::encoding::{push_key, push_varint, two_complement, zigzag_place};
use remote_write_adapter::error::{describe, IngestError};
use remote_write_adapter::remote_write::{
    decode_request, BucketSpan, Count, Exemplar, Histogram, Metadata, RemoteWriteRequest, Sample,
    TimeSeries,
};
use remote_write_adapter::summary::{summarize, IngestionSummary};
use remote_write_adapter::wire::{
    read_key, read_varint, skip_field as skip_unknown, DecodeError, WireType,
};

// A second decoder for the same messages, on the primitives of `prost`.

fn length_of<M: Message>(m: &M) -> usize {
    let mut out = Vec::new();
    m.encode_raw(&mut out);
    out.len()
}

#[derive(Clone, Debug, Default, PartialEq)]
struct RefSample {
    value: f64,
    timestamp: i64,
}

impl Message for RefSample {
    fn encode_raw(&self, buf: &mut impl BufMut) {
        if self.value.to_bits() != 0 {
            double::encode(1, &self.value, buf);
        }
        if self.timestamp != 0 {
            int64::encode(2, &self.timestamp, buf);
        }
    }

    fn merge_field(&mut self, tag: u32, wire_type: ProstWireType, buf: &mut impl Buf, ctx: DecodeContext) -> Result<(), ProstDecodeError> {
        match tag {
            1 => double::merge(wire_type, &mut self.value, buf, ctx),
            2 => int64::merge(wire_type, &mut self.timestamp, buf, ctx),
            _ => skip_field(wire_type, tag, buf, ctx),
        }
    }

    fn encoded_len(&self) -> usize {
        length_of(self)
    }

    fn clear(&mut self) {
        *self = RefSample::default();
    }
}

#[derive(Clone, Debug, Default, PartialEq)]
struct RefExemplar {
    labels_refs: Vec<u32>,
    value: f64,
    timestamp: i64,
}

impl Message for RefExemplar {
    fn encode_raw(&self, buf: &mut impl BufMut) {
        uint32::encode_packed(1, &self.labels_refs, buf);
        if self.value.to_bits() != 0 {
            double::encode(2, &self.value, buf);
        }
        if self.timestamp != 0 {
            int64::encode(3, &self.timestamp, buf);
        }
    }

    fn merge_field(&mut self, tag: u32, wire_type: ProstWireType, buf: &mut impl Buf, ctx: DecodeContext) -> Result<(), ProstDecodeError> {
        match tag {
            1 => uint32::merge_repeated(wire_type, &mut self.labels_refs, buf, ctx),
            2 => double::merge(wire_type, &mut self.value, buf, ctx),
            3 => int64::merge(wire_type, &mut self.timestamp, buf, ctx),
            _ => skip_field(wire_type, tag, buf, ctx),
        }
    }

    fn encoded_len(&self) -> usize {
        length_of(self)
    }

    fn clear(&mut self) {
        *self = RefExemplar::default();
    }
}

#[derive(Clone, Debug, Default, PartialEq)]
struct RefBucketSpan {
    offset: i32,
    length: u32,
}

impl Message for RefBucketSpan {
    fn encode_raw(&self, buf: &mut impl BufMut) {
        if self.offset != 0 {
            sint32::encode(1, &self.offset, buf);
        }
        if self.length != 0 {
            uint32::encode(2, &self.length, buf);
        }
    }

    fn merge_field(&mut self, tag: u32, wire_type: ProstWireType, buf: &mut impl Buf, ctx: DecodeContext) -> Result<(), ProstDecodeError> {
        match tag {
            1 => sint32::merge(wire_type, &mut self.offset, buf, ctx),
            2 => uint32::merge(wire_type, &mut self.length, buf, ctx),
            _ => skip_field(wire_type, tag, buf, ctx),
        }
    }

    fn encoded_len(&self) -> usize {
        length_of(self)
    }

    fn clear(&mut self) {
        *self = RefBucketSpan::default();
    }
}

#[derive(Clone, Debug, PartialEq)]
enum RefCount {
    Int(u64),
    Float(f64),
}

#[derive(Clone, Debug, Default, PartialEq)]
struct RefHistogram {
    count: Option<RefCount>,
    sum: f64,
    schema: i32,
    zero_threshold: f64,
    zero_count: Option<RefCount>,
    negative_spans: Vec<RefBucketSpan>,
    negative_deltas: Vec<i64>,
    negative_counts: Vec<f64>,
    positive_spans: Vec<RefBucketSpan>,
    positive_deltas: Vec<i64>,
    positive_counts: Vec<f64>,
    reset_hint: i32,
    timestamp: i64,
    custom_values: Vec<f64>,
}

fn merge_count(field: &mut Option<RefCount>, float: bool, wire_type: ProstWireType, buf: &mut impl Buf, ctx: DecodeContext) -> Result<(), ProstDecodeError> {
    if float {
        let mut value = 0f64;
        double::merge(wire_type, &mut value, buf, ctx)?;
        *field = Some(RefCount::Float(value));
    } else {
        let mut value = 0u64;
        uint64::merge(wire_type, &mut value, buf, ctx)?;
        *field = Some(RefCount::Int(value));
    }
    Ok(())
}

fn encode_count(field: &Option<RefCount>, int_tag: u32, float_tag: u32, buf: &mut impl BufMut) {
    match field {
        Some(RefCount::Int(v)) => uint64::encode(int_tag, v, buf),
        Some(RefCount::Float(v)) => double::encode(float_tag, v, buf),
        None => {}
    }
}

impl Message for RefHistogram {
    fn encode_raw(&self, buf: &mut impl BufMut) {
        encode_count(&self.count, 1, 2, buf);
        if self.sum.to_bits() != 0 {
            double::encode(3, &self.sum, buf);
        }
        if self.schema != 0 {
            sint32::encode(4, &self.schema, buf);
        }
        if self.zero_threshold.to_bits() != 0 {
            double::encode(5, &self.zero_threshold, buf);
        }
        encode_count(&self.zero_count, 6, 7, buf);
        message::encode_repeated(8, &self.negative_spans, buf);
        sint64::encode_packed(9, &self.negative_deltas, buf);
        double::encode_packed(10, &self.negative_counts, buf);
        message::encode_repeated(11, &self.positive_spans, buf);
        sint64::encode_packed(12, &self.positive_deltas, buf);
        double::encode_packed(13, &self.positive_counts, buf);
        if self.reset_hint != 0 {
            int32::encode(14, &self.reset_hint, buf);
        }
        if self.timestamp != 0 {
            int64::encode(15, &self.timestamp, buf);
        }
        double::encode_packed(16, &self.custom_values, buf);
    }

    fn merge_field(&mut self, tag: u32, wire_type: ProstWireType, buf: &mut impl Buf, ctx: DecodeContext) -> Result<(), ProstDecodeError> {
        match tag {
            1 => merge_count(&mut self.count, false, wire_type, buf, ctx),
            2 => merge_count(&mut self.count, true, wire_type, buf, ctx),
            3 => double::merge(wire_type, &mut self.sum, buf, ctx),
            4 => sint32::merge(wire_type, &mut self.schema, buf, ctx),
            5 => double::merge(wire_type, &mut self.zero_threshold, buf, ctx),
            6 => merge_count(&mut self.zero_count, false, wire_type, buf, ctx),
            7 => merge_count(&mut self.zero_count, true, wire_type, buf, ctx),
            8 => message::merge_repeated(wire_type, &mut self.negative_spans, buf, ctx),
            9 => sint64::merge_repeated(wire_type, &mut self.negative_deltas, buf, ctx),
            10 => double::merge_repeated(wire_type, &mut self.negative_counts, buf, ctx),
            11 => message::merge_repeated(wire_type, &mut self.positive_spans, buf, ctx),
            12 => sint64::merge_repeated(wire_type, &mut self.positive_deltas, buf, ctx),
            13 => double::merge_repeated(wire_type, &mut self.positive_counts, buf, ctx),
            14 => int32::merge(wire_type, &mut self.reset_hint, buf, ctx),
            15 => int64::merge(wire_type, &mut self.timestamp, buf, ctx),
            16 => double::merge_repeated(wire_type, &mut self.custom_values, buf, ctx),
            _ => skip_field(wire_type, tag, buf, ctx),
        }
    }

    fn encoded_len(&self) -> usize {
        length_of(self)
    }

    fn clear(&mut self) {
        *self = RefHistogram::default();
    }
}

#[derive(Clone, Debug, Default, PartialEq)]
struct RefMetadata {
    metric_type: i32,
    help_ref: u32,
    unit_ref: u32,
}

impl Message for RefMetadata {
    fn encode_raw(&self, buf: &mut impl BufMut) {
        if self.metric_type != 0 {
            int32::encode(1, &self.metric_type, buf);
        }
        if self.help_ref != 0 {
            uint32::encode(3, &self.help_ref, buf);
        }
        if self.unit_ref != 0 {
            uint32::encode(4, &self.unit_ref, buf);
        }
    }

    fn merge_field(&mut self, tag: u32, wire_type: ProstWireType, buf: &mut impl Buf, ctx: DecodeContext) -> Result<(), ProstDecodeError> {
        match tag {
            1 => int32::merge(wire_type, &mut self.metric_type, buf, ctx),
            3 => uint32::merge(wire_type, &mut self.help_ref, buf, ctx),
            4 => uint32::merge(wire_type, &mut self.unit_ref, buf, ctx),
            _ => skip_field(wire_type, tag, buf, ctx),
        }
    }

    fn encoded_len(&self) -> usize {
        length_of(self)
    }

    fn clear(&mut self) {
        *self = RefMetadata::default();
    }
}

#[derive(Clone, Debug, Default, PartialEq)]
struct RefTimeSeries {
    labels_refs: Vec<u32>,
    samples: Vec<RefSample>,
    histograms: Vec<RefHistogram>,
    exemplars: Vec<RefExemplar>,
    metadata: Option<RefMetadata>,
    created_timestamp: i64,
}

impl Message for RefTimeSeries {
    fn encode_raw(&self, buf: &mut impl BufMut) {
        uint32::encode_packed(1, &self.labels_refs, buf);
        message::encode_repeated(2, &self.samples, buf);
        message::encode_repeated(3, &self.histograms, buf);
        message::encode_repeated(4, &self.exemplars, buf);
        if let Some(metadata) = &self.metadata {
            message::encode(5, metadata, buf);
        }
        if self.created_timestamp != 0 {
            int64::encode(6, &self.created_timestamp, buf);
        }
    }

    fn merge_field(&mut self, tag: u32, wire_type: ProstWireType, buf: &mut impl Buf, ctx: DecodeContext) -> Result<(), ProstDecodeError> {
        match tag {
            1 => uint32::merge_repeated(wire_type, &mut self.labels_refs, buf, ctx),
            2 => message::merge_repeated(wire_type, &mut self.samples, buf, ctx),
            3 => message::merge_repeated(wire_type, &mut self.histograms, buf, ctx),
            4 => message::merge_repeated(wire_type, &mut self.exemplars, buf, ctx),
            5 => message::merge(wire_type, self.metadata.get_or_insert_with(RefMetadata::default), buf, ctx),
            6 => int64::merge(wire_type, &mut self.created_timestamp, buf, ctx),
            _ => skip_field(wire_type, tag, buf, ctx),
        }
    }

    fn encoded_len(&self) -> usize {
        length_of(self)
    }

    fn clear(&mut self) {
        *self = RefTimeSeries::default();
    }
}

#[derive(Clone, Debug, Default, PartialEq)]
struct RefRequest {
    symbols: Vec<String>,
    timeseries: Vec<RefTimeSeries>,
}

impl Message for RefRequest {
    fn encode_raw(&self, buf: &mut impl BufMut) {
        string::encode_repeated(4, &self.symbols, buf);
        message::encode_repeated(5, &self.timeseries, buf);
    }

    fn merge_field(&mut self, tag: u32, wire_type: ProstWireType, buf: &mut impl Buf, ctx: DecodeContext) -> Result<(), ProstDecodeError> {
        match tag {
            4 => string::merge_repeated(wire_type, &mut self.symbols, buf, ctx),
            5 => message::merge_repeated(wire_type, &mut self.timeseries, buf, ctx),
            _ => skip_field(wire_type, tag, buf, ctx),
        }
    }

    fn encoded_len(&self) -> usize {
        length_of(self)
    }

    fn clear(&mut self) {
        *self = RefRequest::default();
    }
}

fn bits(values: &[f64]) -> Vec<u64> {
    values.iter().map(|v| v.to_bits()).collect()
}

fn count_of(c: &Option<RefCount>) -> Option<Count> {
    match c {
        Some(RefCount::Int(v)) => Some(Count::Int(*v)),
        Some(RefCount::Float(v)) => Some(Count::Float(v.to_bits())),
        None => None,
    }
}

fn spans_of(spans: &[RefBucketSpan]) -> Vec<BucketSpan> {
    spans.iter().map(|s| BucketSpan { offset: s.offset, length: s.length }).collect()
}

fn histogram_of(h: &RefHistogram) -> Histogram {
    Histogram {
        count: count_of(&h.count),
        sum: h.sum.to_bits(),
        schema: h.schema,
        zero_threshold: h.zero_threshold.to_bits(),
        zero_count: count_of(&h.zero_count),
        negative_spans: spans_of(&h.negative_spans),
        negative_deltas: h.negative_deltas.clone(),
        negative_counts: bits(&h.negative_counts),
        positive_spans: spans_of(&h.positive_spans),
        positive_deltas: h.positive_deltas.clone(),
        positive_counts: bits(&h.positive_counts),
        reset_hint: h.reset_hint,
        timestamp: h.timestamp,
        custom_values: bits(&h.custom_values),
    }
}

fn series_of(t: &RefTimeSeries) -> TimeSeries {
    TimeSeries {
        labels_refs: t.labels_refs.clone(),
        samples: t.samples.iter().map(|s| Sample { value: s.value.to_bits(), timestamp: s.timestamp }).collect(),
        histograms: t.histograms.iter().map(histogram_of).collect(),
        exemplars: t
            .exemplars
            .iter()
            .map(|e| Exemplar { labels_refs: e.labels_refs.clone(), value: e.value.to_bits(), timestamp: e.timestamp })
            .collect(),
        metadata: t
            .metadata
            .as_ref()
            .map(|m| Metadata { metric_type: m.metric_type, help_ref: m.help_ref, unit_ref: m.unit_ref }),
        created_timestamp: t.created_timestamp,
    }
}

fn request_of(r: &RefRequest) -> RemoteWriteRequest {
    RemoteWriteRequest { symbols: r.symbols.clone(), timeseries: r.timeseries.iter().map(series_of).collect() }
}

/// Decodes with both decoders and holds the results against each other.
fn agree(bytes: &[u8]) -> Result<RemoteWriteRequest, DecodeError> {
    let ours = decode_request(bytes);
    let theirs = RefRequest::decode(bytes);
    match (&ours, &theirs) {
        (Ok(a), Ok(b)) => assert_eq!(*a, request_of(b), "on {:?}", bytes),
        (Err(a), Err(b)) => {
            assert_eq!(IngestError::decode_failed(*a).message, b.to_string(), "on {:?}", bytes)
        }
        _ => panic!("{:?} against {:?} on {:?}", ours, theirs, bytes),
    }
    ours
}

struct Dice(u64);

impl Dice {
    fn roll(&mut self, bound: u64) -> u64 {
        self.0 = self.0.wrapping_mul(6364136223846793005).wrapping_add(1442695040888963407);
        (self.0 >> 33) % bound
    }

    fn wide(&mut self) -> u64 {
        (self.roll(1 << 31) << 33) ^ (self.roll(1 << 31) << 2) ^ self.roll(4)
    }
}

fn full_request() -> RefRequest {
    let histogram = RefHistogram {
        count: Some(RefCount::Int(12)),
        sum: 18.4,
        schema: -3,
        zero_threshold: 0.001,
        zero_count: Some(RefCount::Float(2.5)),
        negative_spans: vec![RefBucketSpan { offset: -2, length: 3 }],
        negative_deltas: vec![1, -1, 0, i64::MIN, i64::MAX],
        negative_counts: vec![1.0, 2.0],
        positive_spans: vec![RefBucketSpan { offset: 0, length: 2 }, RefBucketSpan { offset: 5, length: 1 }],
        positive_deltas: vec![2, -2, 300],
        positive_counts: vec![0.5],
        reset_hint: 2,
        timestamp: 1_700_000_000_123,
        custom_values: vec![0.1, 1.0, 10.0],
    };
    RefRequest {
        symbols: vec!["".to_string(), "__name__".to_string(), "up".to_string(), "job".to_string(), "n\u{f8}de".to_string()],
        timeseries: vec![
            RefTimeSeries {
                labels_refs: vec![1, 2, 3, 4],
                samples: vec![
                    RefSample { value: 1.0, timestamp: 1_700_000_000_000 },
                    RefSample { value: -0.0, timestamp: -5 },
                    RefSample { value: f64::NAN, timestamp: 0 },
                ],
                histograms: vec![histogram.clone()],
                exemplars: vec![RefExemplar { labels_refs: vec![3, 4], value: 9.75, timestamp: 1_700_000_000_001 }],
                metadata: Some(RefMetadata { metric_type: 2, help_ref: 7, unit_ref: 8 }),
                created_timestamp: 1_600_000_000_000,
            },
            RefTimeSeries::default(),
            RefTimeSeries {
                labels_refs: vec![u32::MAX],
                samples: vec![RefSample { value: 2.0, timestamp: i64::MIN }],
                histograms: vec![histogram, RefHistogram::default()],
                exemplars: vec![],
                metadata: None,
                created_timestamp: 0,
            },
        ],
    }
}

#[test]
fn decodes_what_prost_encodes() {
    let reference = full_request();
    let bytes = reference.encode_to_vec();
    let decoded = agree(&bytes).unwrap();
    assert_eq!(decoded, request_of(&reference));
    assert_eq!(decoded.timeseries.len(), 3);
    assert_eq!(decoded.symbols[4], "n\u{f8}de");
    assert_eq!(decoded.timeseries[0].samples[0], Sample { value: 1.0f64.to_bits(), timestamp: 1_700_000_000_000 });
    assert_eq!(decoded.timeseries[0].samples[1].value, 0x8000_0000_0000_0000);
    assert_eq!(decoded.timeseries[0].histograms[0].schema, -3);
    assert_eq!(decoded.timeseries[0].histograms[0].negative_deltas, vec![1, -1, 0, i64::MIN, i64::MAX]);
    assert_eq!(decoded.timeseries[0].histograms[0].zero_count, Some(Count::Float(2.5f64.to_bits())));
    assert_eq!(decoded.timeseries[2].labels_refs, vec![u32::MAX]);
    assert_eq!(
        summarize(&decoded),
        IngestionSummary { samples: 4, histograms: 3, exemplars: 1 }
    );
}

#[test]
fn empty_payload_is_an_empty_request() {
    let decoded = agree(&[]).unwrap();
    assert_eq!(decoded, RemoteWriteRequest { symbols: vec![], timeseries: vec![] });
    assert_eq!(summarize(&decoded), IngestionSummary { samples: 0, histograms: 0, exemplars: 0 });
}

#[test]
fn unknown_fields_are_stepped_over() {
    // field 1 varint, field 2 fixed64, field 3 length-delimited, field 9 fixed32,
    // field 7 group holding a varint field and a nested group, then a series.
    let mut bytes = vec![0x08, 0x96, 0x01];
    bytes.extend_from_slice(&[0x11, 1, 2, 3, 4, 5, 6, 7, 8]);
    bytes.extend_from_slice(&[0x1a, 0x03, b'a', b'b', b'c']);
    bytes.extend_from_slice(&[0x4d, 1, 2, 3, 4]);
    bytes.extend_from_slice(&[0x3b, 0x08, 0x01, 0x13, 0x14, 0x3c]);
    let mut one = RefTimeSeries::default();
    one.samples.push(RefSample { value: 3.5, timestamp: 9 });
    let mut inner = Vec::new();
    one.encode_raw(&mut inner);
    // an unknown field inside the series, too
    inner.extend_from_slice(&[0xf8, 0x01, 0x05]);
    bytes.push(0x2a);
    bytes.push(inner.len() as u8);
    bytes.extend_from_slice(&inner);
    let decoded = agree(&bytes).unwrap();
    assert!(decoded.symbols.is_empty());
    assert_eq!(decoded.timeseries.len(), 1);
    assert_eq!(decoded.timeseries[0].samples, vec![Sample { value: 3.5f64.to_bits(), timestamp: 9 }]);
}

#[test]
fn repeated_numbers_arrive_packed_or_one_by_one() {
    // labels_refs: packed [1, 300], then unpacked 7, then packed [].
    let series = [0x0a, 0x03, 0x01, 0xac, 0x02, 0x08, 0x07, 0x0a, 0x00];
    let mut bytes = vec![0x2a, series.len() as u8];
    bytes.extend_from_slice(&series);
    let decoded = agree(&bytes).unwrap();
    assert_eq!(decoded.timeseries[0].labels_refs, vec![1, 300, 7]);
}

#[test]
fn later_scalar_wins_and_metadata_merges() {
    // sample with two values and two timestamps
    let sample = [0x09, 0, 0, 0, 0, 0, 0, 0xf0, 0x3f, 0x10, 0x01, 0x09, 0, 0, 0, 0, 0, 0, 0, 0x40, 0x10, 0x02];
    let mut series = vec![0x12, sample.len() as u8];
    series.extend_from_slice(&sample);
    // metadata { type: 1 } then metadata { help_ref: 5 }
    series.extend_from_slice(&[0x2a, 0x02, 0x08, 0x01, 0x2a, 0x02, 0x18, 0x05]);
    let mut bytes = vec![0x2a, series.len() as u8];
    bytes.extend_from_slice(&series);
    let decoded = agree(&bytes).unwrap();
    assert_eq!(decoded.timeseries[0].samples, vec![Sample { value: 2.0f64.to_bits(), timestamp: 2 }]);
    assert_eq!(decoded.timeseries[0].metadata, Some(Metadata { metric_type: 1, help_ref: 5, unit_ref: 0 }));
}

#[test]
fn signed_numbers_are_read_as_prost_reads_them() {
    // histogram: schema sint32 = -1 (zigzag 1), reset_hint int32 = -1 (ten bytes),
    // timestamp int64 = -2, schema again with more than 32 bits set.
    let mut histogram = vec![0x20, 0x01];
    histogram.extend_from_slice(&[0x70, 0xff, 0xff, 0xff, 0xff, 0xff, 0xff, 0xff, 0xff, 0xff, 0x01]);
    histogram.extend_from_slice(&[0x78, 0xfe, 0xff, 0xff, 0xff, 0xff, 0xff, 0xff, 0xff, 0xff, 0x01]);
    let mut series = vec![0x1a, histogram.len() as u8];
    series.extend_from_slice(&histogram);
    let mut bytes = vec![0x2a, series.len() as u8];
    bytes.extend_from_slice(&series);
    let decoded = agree(&bytes).unwrap();
    let h = &decoded.timeseries[0].histograms[0];
    assert_eq!(h.schema, -1);
    assert_eq!(h.reset_hint, -1);
    assert_eq!(h.timestamp, -2);

    let mut histogram = vec![0x20, 0x83, 0x80, 0x80, 0x80, 0x10];
    histogram.extend_from_slice(&[0x70, 0x80, 0x80, 0x80, 0x80, 0x18]);
    let mut series = vec![0x1a, histogram.len() as u8];
    series.extend_from_slice(&histogram);
    let mut bytes = vec![0x2a, series.len() as u8];
    bytes.extend_from_slice(&series);
    let decoded = agree(&bytes).unwrap();
    let h = &decoded.timeseries[0].histograms[0];
    assert_eq!(h.schema, -2);
    assert_eq!(h.reset_hint, i32::MIN);
}

fn failure(bytes: &[u8]) -> DecodeError {
    agree(bytes).unwrap_err()
}

#[test]
fn each_malformation_has_its_error() {
    // a key that ends early
    assert_eq!(failure(&[0x80]), DecodeError::InvalidVarint);
    // a varint of eleven bytes
    assert_eq!(
        failure(&[0x08, 0xff, 0xff, 0xff, 0xff, 0xff, 0xff, 0xff, 0xff, 0xff, 0xff, 0x01]),
        DecodeError::InvalidVarint
    );
    // a varint of ten bytes that overflows
    assert_eq!(
        failure(&[0x08, 0xff, 0xff, 0xff, 0xff, 0xff, 0xff, 0xff, 0xff, 0xff, 0x02]),
        DecodeError::InvalidVarint
    );
    // a key above 32 bits
    assert_eq!(failure(&[0x80, 0x80, 0x80, 0x80, 0x10]), DecodeError::InvalidKey { key: 1 << 32 });
    // wire types 6 and 7
    assert_eq!(failure(&[0x0e]), DecodeError::InvalidWireType { value: 6 });
    assert_eq!(failure(&[0x0f]), DecodeError::InvalidWireType { value: 7 });
    // field number zero
    assert_eq!(failure(&[0x00]), DecodeError::InvalidTag);
    // symbols as a varint
    assert_eq!(
        failure(&[0x20, 0x01]),
        DecodeError::UnexpectedWireType { actual: WireType::Varint, expected: WireType::LengthDelimited }
    );
    // a sample value as a varint
    assert_eq!(
        failure(&[0x2a, 0x04, 0x12, 0x02, 0x08, 0x01]),
        DecodeError::UnexpectedWireType { actual: WireType::Varint, expected: WireType::SixtyFourBit }
    );
    // a series longer than the buffer
    assert_eq!(failure(&[0x2a, 0x05, 0x08, 0x01]), DecodeError::BufferUnderflow);
    // an unknown fixed32 cut short
    assert_eq!(failure(&[0x0d, 0x01, 0x02]), DecodeError::BufferUnderflow);
    // a series whose last field runs over its length
    assert_eq!(failure(&[0x2a, 0x02, 0x30, 0x80, 0x01]), DecodeError::DelimitedLengthExceeded);
    // packed numbers that run over their length
    assert_eq!(failure(&[0x2a, 0x04, 0x0a, 0x01, 0x80, 0x01]), DecodeError::DelimitedLengthExceeded);
    // a group end without a group, and one with another number
    assert_eq!(failure(&[0x0c]), DecodeError::UnexpectedEndGroupTag);
    assert_eq!(failure(&[0x0b, 0x14]), DecodeError::UnexpectedEndGroupTag);
    // a symbol that is not UTF-8
    assert_eq!(failure(&[0x22, 0x02, 0xc3, 0x28]), DecodeError::InvalidString);
    assert_eq!(failure(&[0x22, 0x03, 0xed, 0xa0, 0x80]), DecodeError::InvalidString);
}

#[test]
fn groups_nest_up_to_the_recursion_limit() {
    // groups of the unknown field 7, nested: a hundred levels pass, one more does not.
    let nested = |depth: usize| {
        let mut bytes = Vec::new();
        for _ in 0..depth {
            bytes.push(0x3b);
        }
        for _ in 0..depth {
            bytes.push(0x3c);
        }
        bytes
    };
    assert!(agree(&nested(99)).is_ok());
    assert!(agree(&nested(100)).is_ok());
    assert_eq!(failure(&nested(101)), DecodeError::RecursionLimitReached);
    // inside a series one level less is left
    let inside = |depth: usize| {
        let inner = nested(depth);
        let mut bytes = vec![0x2a];
        prost::encoding::encode_varint(inner.len() as u64, &mut bytes);
        bytes.extend_from_slice(&inner);
        bytes
    };
    assert!(agree(&inside(99)).is_ok());
    assert_eq!(failure(&inside(100)), DecodeError::RecursionLimitReached);
}

#[test]
fn descriptions_are_those_of_prost() {
    assert_eq!(describe(DecodeError::InvalidVarint), "invalid varint");
    assert_eq!(describe(DecodeError::RecursionLimitReached), "recursion limit reached");
    assert_eq!(describe(DecodeError::InvalidWireType { value: 7 }), "invalid wire type value: 7");
    assert_eq!(
        describe(DecodeError::InvalidKey { key: 18446744073709551615 }),
        "invalid key value: 18446744073709551615"
    );
    assert_eq!(describe(DecodeError::InvalidTag), "invalid tag value: 0");
    assert_eq!(
        describe(DecodeError::UnexpectedWireType { actual: WireType::ThirtyTwoBit, expected: WireType::StartGroup }),
        "invalid wire type: ThirtyTwoBit (expected StartGroup)"
    );
    assert_eq!(
        describe(DecodeError::UnexpectedWireType { actual: WireType::EndGroup, expected: WireType::SixtyFourBit }),
        "invalid wire type: EndGroup (expected SixtyFourBit)"
    );
    assert_eq!(describe(DecodeError::BufferUnderflow), "buffer underflow");
    assert_eq!(describe(DecodeError::DelimitedLengthExceeded), "delimited length exceeded");
    assert_eq!(describe(DecodeError::UnexpectedEndGroupTag), "unexpected end group tag");
    assert_eq!(describe(DecodeError::InvalidString), "invalid string value: data is not UTF-8 encoded");
    assert_eq!(
        IngestError::decode_failed(DecodeError::BufferUnderflow).message,
        "failed to decode Protobuf message: buffer underflow"
    );
}

#[test]
fn every_truncation_agrees_with_prost() {
    let bytes = full_request().encode_to_vec();
    for end in 0..=bytes.len() {
        let _ = agree(&bytes[..end]);
    }
}

#[test]
fn every_single_byte_change_agrees_with_prost() {
    let bytes = full_request().encode_to_vec();
    let mut dice = Dice(7);
    for at in 0..bytes.len() {
        for _ in 0..24 {
            let mut changed = bytes.clone();
            changed[at] = dice.roll(256) as u8;
            let _ = agree(&changed);
        }
        for bit in 0..8 {
            let mut changed = bytes.clone();
            changed[at] ^= 1 << bit;
            let _ = agree(&changed);
        }
    }
}

#[test]
fn random_field_runs_agree_with_prost() {
    let mut dice = Dice(2026);
    let pool: [u8; 24] = [
        0x00, 0x01, 0x02, 0x03, 0x08, 0x09, 0x0a, 0x0b, 0x0c, 0x0d, 0x10, 0x12, 0x1a, 0x22, 0x2a, 0x30, 0x7f, 0x80,
        0x81, 0xc3, 0xf0, 0xff, 0x28, 0x04,
    ];
    for _ in 0..60_000 {
        let len = dice.roll(24) as usize;
        let mut bytes = Vec::with_capacity(len);
        for _ in 0..len {
            if dice.roll(4) == 0 {
                bytes.push(dice.roll(256) as u8);
            } else {
                bytes.push(pool[dice.roll(24) as usize]);
            }
        }
        let _ = agree(&bytes);
    }
}

#[test]
fn varints_are_read_as_prost_writes_them() {
    let mut dice = Dice(99);
    let mut values = vec![0u64, 1, 127, 128, 300, 16383, 16384, u32::MAX as u64, 1 << 32, (1 << 63) - 1, 1 << 63, u64::MAX];
    for _ in 0..2000 {
        let width = dice.roll(64) + 1;
        values.push(dice.wide() >> (64 - width));
    }
    for v in values {
        let mut bytes = vec![0xaa, 0xbb];
        prost::encoding::encode_varint(v, &mut bytes);
        let end = bytes.len();
        bytes.push(0xcc);
        assert_eq!(read_varint(&bytes, 2), Ok((v, end)));
    }
    assert_eq!(read_varint(&[0x01], 1), Err(DecodeError::InvalidVarint));
    assert_eq!(read_varint(&[0x80, 0x80], 0), Err(DecodeError::InvalidVarint));
    // overlong but sound: zero in three bytes
    assert_eq!(read_varint(&[0x80, 0x80, 0x00], 0), Ok((0, 3)));
}

#[test]
fn keys_split_into_number_and_wire_type() {
    assert_eq!(read_key(&[0x2a], 0), Ok((5, WireType::LengthDelimited, 1)));
    assert_eq!(read_key(&[0x09], 0), Ok((1, WireType::SixtyFourBit, 1)));
    assert_eq!(read_key(&[0xfd, 0xff, 0xff, 0xff, 0x0d], 0), Ok((0xdfff_fffd >> 3, WireType::ThirtyTwoBit, 5)));
    assert_eq!(read_key(&[0xff, 0xff, 0xff, 0xff, 0x0d], 0), Err(DecodeError::InvalidWireType { value: 7 }));
    assert_eq!(read_key(&[0xf8, 0xff, 0xff, 0xff, 0x0f], 0), Ok((0x1fff_ffff, WireType::Varint, 5)));
    assert_eq!(read_key(&[0x03], 0), Err(DecodeError::InvalidTag));
    assert_eq!(read_key(&[], 0), Err(DecodeError::InvalidVarint));
}

#[test]
fn skipping_ends_behind_the_field() {
    let bytes = [0xff, 0x96, 0x01, 0xee];
    assert_eq!(skip_unknown(&bytes, 1, WireType::Varint, 3, 100), Ok(3));
    assert_eq!(skip_unknown(&bytes, 0, WireType::ThirtyTwoBit, 3, 100), Ok(4));
    assert_eq!(skip_unknown(&bytes, 1, WireType::ThirtyTwoBit, 3, 100), Err(DecodeError::BufferUnderflow));
    assert_eq!(skip_unknown(&bytes, 0, WireType::Varint, 3, 0), Err(DecodeError::RecursionLimitReached));
    assert_eq!(skip_unknown(&[0x02, 0xaa, 0xbb, 0xcc], 0, WireType::LengthDelimited, 3, 1), Ok(3));
    assert_eq!(skip_unknown(&[0x1c], 0, WireType::StartGroup, 3, 1), Ok(1));
    assert_eq!(skip_unknown(&[0x08, 0x01, 0x1c], 0, WireType::StartGroup, 3, 1), Err(DecodeError::RecursionLimitReached));
    assert_eq!(skip_unknown(&[0x08, 0x01, 0x1c], 0, WireType::StartGroup, 3, 2), Ok(3));
}

#[test]
fn summary_counts_entries_of_all_series() {
    let blank = Histogram {
        count: None,
        sum: 0,
        schema: 0,
        zero_threshold: 0,
        zero_count: None,
        negative_spans: vec![],
        negative_deltas: vec![],
        negative_counts: vec![],
        positive_spans: vec![],
        positive_deltas: vec![],
        positive_counts: vec![],
        reset_hint: 0,
        timestamp: 0,
        custom_values: vec![],
    };
    let series = |samples: usize, histograms: usize, exemplars: usize| TimeSeries {
        labels_refs: vec![],
        samples: vec![Sample { value: 0, timestamp: 0 }; samples],
        histograms: vec![blank.clone(); histograms],
        exemplars: vec![Exemplar { labels_refs: vec![], value: 0, timestamp: 0 }; exemplars],
        metadata: None,
        created_timestamp: 0,
    };
    let request = RemoteWriteRequest {
        symbols: vec![],
        timeseries: vec![series(3, 0, 1), series(0, 0, 0), series(10, 4, 0), series(1, 1, 1)],
    };
    assert_eq!(summarize(&request), IngestionSummary { samples: 14, histograms: 5, exemplars: 2 });
}

fn random_request(dice: &mut Dice) -> RefRequest {
    let number = |dice: &mut Dice| -> f64 {
        match dice.roll(6) {
            0 => 0.0,
            1 => 1.5,
            2 => f64::INFINITY,
            3 => f64::MIN_POSITIVE,
            _ => f64::from_bits(dice.wide()),
        }
    };
    let signed = |dice: &mut Dice| -> i64 {
        match dice.roll(5) {
            0 => 0,
            1 => -1,
            2 => i64::MIN,
            _ => dice.wide() as i64 >> dice.roll(64),
        }
    };
    let count = |dice: &mut Dice| -> Option<RefCount> {
        match dice.roll(3) {
            0 => None,
            1 => Some(RefCount::Int(dice.wide() >> dice.roll(64))),
            _ => Some(RefCount::Float(f64::from_bits(dice.wide()))),
        }
    };
    let mut request = RefRequest::default();
    for _ in 0..dice.roll(4) {
        let len = dice.roll(5) as usize;
        request.symbols.push("s\u{e9}ries".chars().cycle().take(len).collect());
    }
    for _ in 0..dice.roll(4) {
        let mut series = RefTimeSeries::default();
        for _ in 0..dice.roll(4) {
            series.labels_refs.push((dice.wide() >> dice.roll(64)) as u32);
        }
        for _ in 0..dice.roll(4) {
            series.samples.push(RefSample { value: number(dice), timestamp: signed(dice) });
        }
        for _ in 0..dice.roll(3) {
            let mut h = RefHistogram::default();
            h.count = count(dice);
            h.sum = number(dice);
            h.schema = signed(dice) as i32;
            h.zero_threshold = number(dice);
            h.zero_count = count(dice);
            for _ in 0..dice.roll(3) {
                h.negative_spans.push(RefBucketSpan { offset: signed(dice) as i32, length: dice.wide() as u32 });
                h.positive_deltas.push(signed(dice));
                h.custom_values.push(number(dice));
            }
            for _ in 0..dice.roll(3) {
                h.positive_spans.push(RefBucketSpan { offset: signed(dice) as i32, length: dice.roll(9) as u32 });
                h.negative_deltas.push(signed(dice));
                h.negative_counts.push(number(dice));
                h.positive_counts.push(number(dice));
            }
            h.reset_hint = signed(dice) as i32;
            h.timestamp = signed(dice);
            series.histograms.push(h);
        }
        for _ in 0..dice.roll(3) {
            let mut e = RefExemplar { labels_refs: vec![], value: number(dice), timestamp: signed(dice) };
            for _ in 0..dice.roll(3) {
                e.labels_refs.push(dice.roll(1000) as u32);
            }
            series.exemplars.push(e);
        }
        if dice.roll(2) == 0 {
            series.metadata = Some(RefMetadata {
                metric_type: signed(dice) as i32,
                help_ref: dice.roll(50) as u32,
                unit_ref: dice.wide() as u32,
            });
        }
        series.created_timestamp = signed(dice);
        request.timeseries.push(series);
    }
    request
}

#[test]
fn encoder_writes_what_prost_writes() {
    // prost leaves a negative zero out, as it does a zero; here it is written
    let mut reference = full_request();
    reference.timeseries[0].samples[1].value = 0.25;
    assert_eq!(encode_request(&request_of(&reference)), reference.encode_to_vec());
    assert_eq!(encode_request(&request_of(&RefRequest::default())), Vec::<u8>::new());
    let mut dice = Dice(31);
    for _ in 0..400 {
        let reference = random_request(&mut dice);
        let ours = request_of(&reference);
        let bytes = encode_request(&ours);
        if bytes != reference.encode_to_vec() {
            // only a negative zero makes the difference
            let theirs = RefRequest::decode(&reference.encode_to_vec()[..]).unwrap();
            assert!(format!("{:?}", reference).contains("-0.0"));
            assert_eq!(format!("{:?}", theirs).replace("-0.0", "0.0"), format!("{:?}", reference).replace("-0.0", "0.0"));
        }
        assert_eq!(agree(&bytes), Ok(ours));
    }
}

#[test]
fn what_is_encoded_is_decoded_as_it_was() {
    let request = request_of(&full_request());
    let bytes = encode_request(&request);
    assert_eq!(decode_request(&bytes), Ok(request.clone()));
    // the negative zero and the NaN come back bit for bit
    let back = decode_request(&bytes).unwrap();
    assert_eq!(back.timeseries[0].samples[1].value, (-0.0f64).to_bits());
    assert_eq!(back.timeseries[0].samples[2].value, f64::NAN.to_bits());
    let littlest = RemoteWriteRequest {
        symbols: vec![String::new()],
        timeseries: vec![TimeSeries {
            labels_refs: vec![0],
            samples: vec![Sample { value: 0, timestamp: 0 }],
            histograms: vec![],
            exemplars: vec![],
            metadata: Some(Metadata { metric_type: 0, help_ref: 0, unit_ref: 0 }),
            created_timestamp: 0,
        }],
    };
    assert_eq!(encode_request(&littlest), vec![0x22, 0x00, 0x2a, 0x07, 0x0a, 0x01, 0x00, 0x12, 0x00, 0x2a, 0x00]);
    assert_eq!(decode_request(&encode_request(&littlest)), Ok(littlest));
}

#[test]
fn numbers_are_written_as_prost_writes_them() {
    let mut dice = Dice(5);
    let mut values = vec![0u64, 1, 127, 128, 255, 256, 16383, 16384, u32::MAX as u64, u64::MAX];
    for _ in 0..500 {
        values.push(dice.wide() >> dice.roll(64));
    }
    for v in values {
        let mut ours = vec![0x55];
        push_varint(&mut ours, v);
        let mut theirs = vec![0x55];
        prost::encoding::encode_varint(v, &mut theirs);
        assert_eq!(ours, theirs);
    }
    let mut ours = Vec::new();
    push_key(&mut ours, 5, WireType::LengthDelimited);
    push_key(&mut ours, 1, WireType::SixtyFourBit);
    push_key(&mut ours, 536870911, WireType::ThirtyTwoBit);
    assert_eq!(ours, vec![0x2a, 0x09, 0xfd, 0xff, 0xff, 0xff, 0x0f]);
    assert_eq!(two_complement(0), 0);
    assert_eq!(two_complement(5), 5);
    assert_eq!(two_complement(-1), u64::MAX);
    assert_eq!(two_complement(i64::MIN), 1 << 63);
    assert_eq!(two_complement(i64::MAX), (1 << 63) - 1);
    assert_eq!(zigzag_place(0), 0);
    assert_eq!(zigzag_place(-1), 1);
    assert_eq!(zigzag_place(1), 2);
    assert_eq!(zigzag_place(-2), 3);
    assert_eq!(zigzag_place(i64::MAX), u64::MAX - 1);
    assert_eq!(zigzag_place(i64::MIN), u64::MAX);
}

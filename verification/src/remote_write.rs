//! The remote-write batch: a request of time series, each with its samples,
//! histograms and exemplars, and how each message reads its fields.
//!
//! Floating-point numbers are kept as the 64 bits of their IEEE 754 form.

use crate::message::{
    decode_message, lemma_entries_bounded, lemma_message_bounds, lemma_string_bounds, message_at,
    message_of, read_message, read_string, string_at, WireMessage,
};
use crate::scalar::{
    lemma_repeated_bounds, lemma_scalar_bounds, read_repeated, read_scalar, repeated_at, scalar_at,
    Double, Int32, Int64, SInt32, SInt64, UInt32, UInt64,
};
use crate::wire::{lemma_skip_bounds, skip_at, skip_field, DecodeError, WireType, RECURSION_LIMIT};
use vstd::prelude::*;

verus! {

/// The views of the items of a sequence, in its order.
pub open spec fn views_of<T: View>(items: Seq<T>) -> Seq<T::V> {
    Seq::new(items.len(), |i: int| items[i]@)
}

/// The views of a sequence with one more item behind it.
pub proof fn lemma_views_push<T: View>(items: Seq<T>, item: T)
    ensures
        views_of(items.push(item)) == views_of(items).push(item@),
{
    assert(views_of(items.push(item)) =~= views_of(items).push(item@));
}

/// The result of a read with its value mapped by `f`.
pub open spec fn mapped<T, V>(r: Result<(T, int), DecodeError>, f: spec_fn(T) -> V) -> Result<(V, int), DecodeError> {
    match r {
        Err(e) => Err(e),
        Ok((v, next)) => Ok((f(v), next)),
    }
}

/// The message `acc`, unchanged, behind a field that was stepped over.
pub open spec fn kept<V>(acc: V, r: Result<int, DecodeError>) -> Result<(V, int), DecodeError> {
    match r {
        Err(e) => Err(e),
        Ok(next) => Ok((acc, next)),
    }
}

/// One observation of a series.
#[derive(Clone, Copy, Debug, PartialEq, Eq, Structural)]
pub struct Sample {
    pub value: u64,
    pub timestamp: i64,
}

impl View for Sample {
    type V = Sample;

    open spec fn view(&self) -> Sample {
        *self
    }
}

impl WireMessage for Sample {
    open spec fn blank() -> Sample {
        Sample { value: 0, timestamp: 0 }
    }

    open spec fn with_field(acc: Sample, s: Seq<u8>, pos: int, tag: u32, wire: WireType, budget: nat) -> Result<(Sample, int), DecodeError> {
        if tag == 1 {
            mapped(scalar_at::<Double>(s, pos, wire), |v: u64| Sample { value: v, ..acc })
        } else if tag == 2 {
            mapped(scalar_at::<Int64>(s, pos, wire), |v: i64| Sample { timestamp: v, ..acc })
        } else {
            kept(acc, skip_at(s, pos, wire, tag, budget))
        }
    }

    open spec fn entry_count(v: Sample) -> nat {
        0
    }

    proof fn lemma_with_field(acc: Self::V, s: Seq<u8>, pos: int, tag: u32, wire: WireType, budget: nat) {
        lemma_scalar_bounds::<Double>(s, pos, wire);
        lemma_scalar_bounds::<Int64>(s, pos, wire);
        lemma_skip_bounds(s, pos, wire, tag, budget);
    }

    fn new_blank() -> (m: Sample) {
        Sample { value: 0, timestamp: 0 }
    }

    fn merge_field(&mut self, buf: &[u8], pos: usize, tag: u32, wire: WireType, budget: u32) -> (r: Result<usize, DecodeError>) {
        if tag == 1 {
            let (v, next) = read_scalar::<Double>(buf, pos, wire)?;
            self.value = v;
            Ok(next)
        } else if tag == 2 {
            let (v, next) = read_scalar::<Int64>(buf, pos, wire)?;
            self.timestamp = v;
            Ok(next)
        } else {
            skip_field(buf, pos, wire, tag, budget)
        }
    }
}

/// An example observation attached to a series.
#[derive(Clone, Debug, PartialEq, Eq)]
pub struct Exemplar {
    pub labels_refs: Vec<u32>,
    pub value: u64,
    pub timestamp: i64,
}

/// An exemplar as a value.
pub struct ExemplarView {
    pub labels_refs: Seq<u32>,
    pub value: u64,
    pub timestamp: i64,
}

impl View for Exemplar {
    type V = ExemplarView;

    open spec fn view(&self) -> ExemplarView {
        ExemplarView { labels_refs: self.labels_refs@, value: self.value, timestamp: self.timestamp }
    }
}

impl WireMessage for Exemplar {
    open spec fn blank() -> ExemplarView {
        ExemplarView { labels_refs: Seq::empty(), value: 0, timestamp: 0 }
    }

    open spec fn with_field(acc: ExemplarView, s: Seq<u8>, pos: int, tag: u32, wire: WireType, budget: nat) -> Result<(ExemplarView, int), DecodeError> {
        if tag == 1 {
            mapped(
                repeated_at::<UInt32>(acc.labels_refs, s, pos, wire),
                |v: Seq<u32>| ExemplarView { labels_refs: v, ..acc },
            )
        } else if tag == 2 {
            mapped(scalar_at::<Double>(s, pos, wire), |v: u64| ExemplarView { value: v, ..acc })
        } else if tag == 3 {
            mapped(scalar_at::<Int64>(s, pos, wire), |v: i64| ExemplarView { timestamp: v, ..acc })
        } else {
            kept(acc, skip_at(s, pos, wire, tag, budget))
        }
    }

    open spec fn entry_count(v: ExemplarView) -> nat {
        0
    }

    proof fn lemma_with_field(acc: Self::V, s: Seq<u8>, pos: int, tag: u32, wire: WireType, budget: nat) {
        lemma_repeated_bounds::<UInt32>(acc.labels_refs, s, pos, wire);
        lemma_scalar_bounds::<Double>(s, pos, wire);
        lemma_scalar_bounds::<Int64>(s, pos, wire);
        lemma_skip_bounds(s, pos, wire, tag, budget);
    }

    fn new_blank() -> (m: Exemplar) {
        Exemplar { labels_refs: Vec::new(), value: 0, timestamp: 0 }
    }

    fn merge_field(&mut self, buf: &[u8], pos: usize, tag: u32, wire: WireType, budget: u32) -> (r: Result<usize, DecodeError>) {
        if tag == 1 {
            read_repeated::<UInt32>(&mut self.labels_refs, buf, pos, wire)
        } else if tag == 2 {
            let (v, next) = read_scalar::<Double>(buf, pos, wire)?;
            self.value = v;
            Ok(next)
        } else if tag == 3 {
            let (v, next) = read_scalar::<Int64>(buf, pos, wire)?;
            self.timestamp = v;
            Ok(next)
        } else {
            skip_field(buf, pos, wire, tag, budget)
        }
    }
}

/// A run of consecutive buckets of a native histogram.
#[derive(Clone, Copy, Debug, PartialEq, Eq, Structural)]
pub struct BucketSpan {
    pub offset: i32,
    pub length: u32,
}

impl View for BucketSpan {
    type V = BucketSpan;

    open spec fn view(&self) -> BucketSpan {
        *self
    }
}

impl WireMessage for BucketSpan {
    open spec fn blank() -> BucketSpan {
        BucketSpan { offset: 0, length: 0 }
    }

    open spec fn with_field(acc: BucketSpan, s: Seq<u8>, pos: int, tag: u32, wire: WireType, budget: nat) -> Result<(BucketSpan, int), DecodeError> {
        if tag == 1 {
            mapped(scalar_at::<SInt32>(s, pos, wire), |v: i32| BucketSpan { offset: v, ..acc })
        } else if tag == 2 {
            mapped(scalar_at::<UInt32>(s, pos, wire), |v: u32| BucketSpan { length: v, ..acc })
        } else {
            kept(acc, skip_at(s, pos, wire, tag, budget))
        }
    }

    open spec fn entry_count(v: BucketSpan) -> nat {
        0
    }

    proof fn lemma_with_field(acc: Self::V, s: Seq<u8>, pos: int, tag: u32, wire: WireType, budget: nat) {
        lemma_scalar_bounds::<SInt32>(s, pos, wire);
        lemma_scalar_bounds::<UInt32>(s, pos, wire);
        lemma_skip_bounds(s, pos, wire, tag, budget);
    }

    fn new_blank() -> (m: BucketSpan) {
        BucketSpan { offset: 0, length: 0 }
    }

    fn merge_field(&mut self, buf: &[u8], pos: usize, tag: u32, wire: WireType, budget: u32) -> (r: Result<usize, DecodeError>) {
        if tag == 1 {
            let (v, next) = read_scalar::<SInt32>(buf, pos, wire)?;
            self.offset = v;
            Ok(next)
        } else if tag == 2 {
            let (v, next) = read_scalar::<UInt32>(buf, pos, wire)?;
            self.length = v;
            Ok(next)
        } else {
            skip_field(buf, pos, wire, tag, budget)
        }
    }
}

/// A count of observations, whole or fractional.
#[derive(Clone, Copy, Debug, PartialEq, Eq, Structural)]
pub enum Count {
    Int(u64),
    Float(u64),
}

/// A native histogram.
#[derive(Clone, Debug, PartialEq, Eq)]
pub struct Histogram {
    pub count: Option<Count>,
    pub sum: u64,
    pub schema: i32,
    pub zero_threshold: u64,
    pub zero_count: Option<Count>,
    pub negative_spans: Vec<BucketSpan>,
    pub negative_deltas: Vec<i64>,
    pub negative_counts: Vec<u64>,
    pub positive_spans: Vec<BucketSpan>,
    pub positive_deltas: Vec<i64>,
    pub positive_counts: Vec<u64>,
    pub reset_hint: i32,
    pub timestamp: i64,
    pub custom_values: Vec<u64>,
}

/// A histogram as a value.
pub struct HistogramView {
    pub count: Option<Count>,
    pub sum: u64,
    pub schema: i32,
    pub zero_threshold: u64,
    pub zero_count: Option<Count>,
    pub negative_spans: Seq<BucketSpan>,
    pub negative_deltas: Seq<i64>,
    pub negative_counts: Seq<u64>,
    pub positive_spans: Seq<BucketSpan>,
    pub positive_deltas: Seq<i64>,
    pub positive_counts: Seq<u64>,
    pub reset_hint: i32,
    pub timestamp: i64,
    pub custom_values: Seq<u64>,
}

impl View for Histogram {
    type V = HistogramView;

    open spec fn view(&self) -> HistogramView {
        HistogramView {
            count: self.count,
            sum: self.sum,
            schema: self.schema,
            zero_threshold: self.zero_threshold,
            zero_count: self.zero_count,
            negative_spans: self.negative_spans@,
            negative_deltas: self.negative_deltas@,
            negative_counts: self.negative_counts@,
            positive_spans: self.positive_spans@,
            positive_deltas: self.positive_deltas@,
            positive_counts: self.positive_counts@,
            reset_hint: self.reset_hint,
            timestamp: self.timestamp,
            custom_values: self.custom_values@,
        }
    }
}

impl WireMessage for Histogram {
    open spec fn blank() -> HistogramView {
        HistogramView {
            count: None,
            sum: 0,
            schema: 0,
            zero_threshold: 0,
            zero_count: None,
            negative_spans: Seq::empty(),
            negative_deltas: Seq::empty(),
            negative_counts: Seq::empty(),
            positive_spans: Seq::empty(),
            positive_deltas: Seq::empty(),
            positive_counts: Seq::empty(),
            reset_hint: 0,
            timestamp: 0,
            custom_values: Seq::empty(),
        }
    }

    open spec fn with_field(acc: HistogramView, s: Seq<u8>, pos: int, tag: u32, wire: WireType, budget: nat) -> Result<(HistogramView, int), DecodeError> {
        if tag == 1 {
            mapped(
                scalar_at::<UInt64>(s, pos, wire),
                |v: u64| HistogramView { count: Some(Count::Int(v)), ..acc },
            )
        } else if tag == 2 {
            mapped(
                scalar_at::<Double>(s, pos, wire),
                |v: u64| HistogramView { count: Some(Count::Float(v)), ..acc },
            )
        } else if tag == 3 {
            mapped(scalar_at::<Double>(s, pos, wire), |v: u64| HistogramView { sum: v, ..acc })
        } else if tag == 4 {
            mapped(scalar_at::<SInt32>(s, pos, wire), |v: i32| HistogramView { schema: v, ..acc })
        } else if tag == 5 {
            mapped(
                scalar_at::<Double>(s, pos, wire),
                |v: u64| HistogramView { zero_threshold: v, ..acc },
            )
        } else if tag == 6 {
            mapped(
                scalar_at::<UInt64>(s, pos, wire),
                |v: u64| HistogramView { zero_count: Some(Count::Int(v)), ..acc },
            )
        } else if tag == 7 {
            mapped(
                scalar_at::<Double>(s, pos, wire),
                |v: u64| HistogramView { zero_count: Some(Count::Float(v)), ..acc },
            )
        } else if tag == 8 {
            mapped(
                message_at::<BucketSpan>(BucketSpan::blank(), s, pos, wire, budget),
                |v: BucketSpan| HistogramView { negative_spans: acc.negative_spans.push(v), ..acc },
            )
        } else if tag == 9 {
            mapped(
                repeated_at::<SInt64>(acc.negative_deltas, s, pos, wire),
                |v: Seq<i64>| HistogramView { negative_deltas: v, ..acc },
            )
        } else if tag == 10 {
            mapped(
                repeated_at::<Double>(acc.negative_counts, s, pos, wire),
                |v: Seq<u64>| HistogramView { negative_counts: v, ..acc },
            )
        } else if tag == 11 {
            mapped(
                message_at::<BucketSpan>(BucketSpan::blank(), s, pos, wire, budget),
                |v: BucketSpan| HistogramView { positive_spans: acc.positive_spans.push(v), ..acc },
            )
        } else if tag == 12 {
            mapped(
                repeated_at::<SInt64>(acc.positive_deltas, s, pos, wire),
                |v: Seq<i64>| HistogramView { positive_deltas: v, ..acc },
            )
        } else if tag == 13 {
            mapped(
                repeated_at::<Double>(acc.positive_counts, s, pos, wire),
                |v: Seq<u64>| HistogramView { positive_counts: v, ..acc },
            )
        } else if tag == 14 {
            mapped(scalar_at::<Int32>(s, pos, wire), |v: i32| HistogramView { reset_hint: v, ..acc })
        } else if tag == 15 {
            mapped(scalar_at::<Int64>(s, pos, wire), |v: i64| HistogramView { timestamp: v, ..acc })
        } else if tag == 16 {
            mapped(
                repeated_at::<Double>(acc.custom_values, s, pos, wire),
                |v: Seq<u64>| HistogramView { custom_values: v, ..acc },
            )
        } else {
            kept(acc, skip_at(s, pos, wire, tag, budget))
        }
    }

    open spec fn entry_count(v: HistogramView) -> nat {
        0
    }

    proof fn lemma_with_field(acc: Self::V, s: Seq<u8>, pos: int, tag: u32, wire: WireType, budget: nat) {
        lemma_scalar_bounds::<UInt64>(s, pos, wire);
        lemma_scalar_bounds::<Double>(s, pos, wire);
        lemma_scalar_bounds::<SInt32>(s, pos, wire);
        lemma_scalar_bounds::<Int32>(s, pos, wire);
        lemma_scalar_bounds::<Int64>(s, pos, wire);
        lemma_message_bounds::<BucketSpan>(BucketSpan::blank(), s, pos, wire, budget);
        lemma_repeated_bounds::<SInt64>(acc.negative_deltas, s, pos, wire);
        lemma_repeated_bounds::<Double>(acc.negative_counts, s, pos, wire);
        lemma_repeated_bounds::<SInt64>(acc.positive_deltas, s, pos, wire);
        lemma_repeated_bounds::<Double>(acc.positive_counts, s, pos, wire);
        lemma_repeated_bounds::<Double>(acc.custom_values, s, pos, wire);
        lemma_skip_bounds(s, pos, wire, tag, budget);
    }

    fn new_blank() -> (m: Histogram) {
        Histogram {
            count: None,
            sum: 0,
            schema: 0,
            zero_threshold: 0,
            zero_count: None,
            negative_spans: Vec::new(),
            negative_deltas: Vec::new(),
            negative_counts: Vec::new(),
            positive_spans: Vec::new(),
            positive_deltas: Vec::new(),
            positive_counts: Vec::new(),
            reset_hint: 0,
            timestamp: 0,
            custom_values: Vec::new(),
        }
    }

    fn merge_field(&mut self, buf: &[u8], pos: usize, tag: u32, wire: WireType, budget: u32) -> (r: Result<usize, DecodeError>) {
        if tag == 1 {
            let (v, next) = read_scalar::<UInt64>(buf, pos, wire)?;
            self.count = Some(Count::Int(v));
            Ok(next)
        } else if tag == 2 {
            let (v, next) = read_scalar::<Double>(buf, pos, wire)?;
            self.count = Some(Count::Float(v));
            Ok(next)
        } else if tag == 3 {
            let (v, next) = read_scalar::<Double>(buf, pos, wire)?;
            self.sum = v;
            Ok(next)
        } else if tag == 4 {
            let (v, next) = read_scalar::<SInt32>(buf, pos, wire)?;
            self.schema = v;
            Ok(next)
        } else if tag == 5 {
            let (v, next) = read_scalar::<Double>(buf, pos, wire)?;
            self.zero_threshold = v;
            Ok(next)
        } else if tag == 6 {
            let (v, next) = read_scalar::<UInt64>(buf, pos, wire)?;
            self.zero_count = Some(Count::Int(v));
            Ok(next)
        } else if tag == 7 {
            let (v, next) = read_scalar::<Double>(buf, pos, wire)?;
            self.zero_count = Some(Count::Float(v));
            Ok(next)
        } else if tag == 8 {
            let (v, next) = read_message::<BucketSpan>(BucketSpan::new_blank(), buf, pos, wire, budget)?;
            self.negative_spans.push(v);
            Ok(next)
        } else if tag == 9 {
            read_repeated::<SInt64>(&mut self.negative_deltas, buf, pos, wire)
        } else if tag == 10 {
            read_repeated::<Double>(&mut self.negative_counts, buf, pos, wire)
        } else if tag == 11 {
            let (v, next) = read_message::<BucketSpan>(BucketSpan::new_blank(), buf, pos, wire, budget)?;
            self.positive_spans.push(v);
            Ok(next)
        } else if tag == 12 {
            read_repeated::<SInt64>(&mut self.positive_deltas, buf, pos, wire)
        } else if tag == 13 {
            read_repeated::<Double>(&mut self.positive_counts, buf, pos, wire)
        } else if tag == 14 {
            let (v, next) = read_scalar::<Int32>(buf, pos, wire)?;
            self.reset_hint = v;
            Ok(next)
        } else if tag == 15 {
            let (v, next) = read_scalar::<Int64>(buf, pos, wire)?;
            self.timestamp = v;
            Ok(next)
        } else if tag == 16 {
            read_repeated::<Double>(&mut self.custom_values, buf, pos, wire)
        } else {
            skip_field(buf, pos, wire, tag, budget)
        }
    }
}

/// What is known of the metric that a series belongs to.
#[derive(Clone, Copy, Debug, PartialEq, Eq, Structural)]
pub struct Metadata {
    pub metric_type: i32,
    pub help_ref: u32,
    pub unit_ref: u32,
}

impl View for Metadata {
    type V = Metadata;

    open spec fn view(&self) -> Metadata {
        *self
    }
}

impl WireMessage for Metadata {
    open spec fn blank() -> Metadata {
        Metadata { metric_type: 0, help_ref: 0, unit_ref: 0 }
    }

    open spec fn with_field(acc: Metadata, s: Seq<u8>, pos: int, tag: u32, wire: WireType, budget: nat) -> Result<(Metadata, int), DecodeError> {
        if tag == 1 {
            mapped(scalar_at::<Int32>(s, pos, wire), |v: i32| Metadata { metric_type: v, ..acc })
        } else if tag == 3 {
            mapped(scalar_at::<UInt32>(s, pos, wire), |v: u32| Metadata { help_ref: v, ..acc })
        } else if tag == 4 {
            mapped(scalar_at::<UInt32>(s, pos, wire), |v: u32| Metadata { unit_ref: v, ..acc })
        } else {
            kept(acc, skip_at(s, pos, wire, tag, budget))
        }
    }

    open spec fn entry_count(v: Metadata) -> nat {
        0
    }

    proof fn lemma_with_field(acc: Self::V, s: Seq<u8>, pos: int, tag: u32, wire: WireType, budget: nat) {
        lemma_scalar_bounds::<Int32>(s, pos, wire);
        lemma_scalar_bounds::<UInt32>(s, pos, wire);
        lemma_skip_bounds(s, pos, wire, tag, budget);
    }

    fn new_blank() -> (m: Metadata) {
        Metadata { metric_type: 0, help_ref: 0, unit_ref: 0 }
    }

    fn merge_field(&mut self, buf: &[u8], pos: usize, tag: u32, wire: WireType, budget: u32) -> (r: Result<usize, DecodeError>) {
        if tag == 1 {
            let (v, next) = read_scalar::<Int32>(buf, pos, wire)?;
            self.metric_type = v;
            Ok(next)
        } else if tag == 3 {
            let (v, next) = read_scalar::<UInt32>(buf, pos, wire)?;
            self.help_ref = v;
            Ok(next)
        } else if tag == 4 {
            let (v, next) = read_scalar::<UInt32>(buf, pos, wire)?;
            self.unit_ref = v;
            Ok(next)
        } else {
            skip_field(buf, pos, wire, tag, budget)
        }
    }
}

/// One series of a batch with what was observed of it.
#[derive(Clone, Debug, PartialEq, Eq)]
pub struct TimeSeries {
    pub labels_refs: Vec<u32>,
    pub samples: Vec<Sample>,
    pub histograms: Vec<Histogram>,
    pub exemplars: Vec<Exemplar>,
    pub metadata: Option<Metadata>,
    pub created_timestamp: i64,
}

/// A series as a value.
pub struct TimeSeriesView {
    pub labels_refs: Seq<u32>,
    pub samples: Seq<Sample>,
    pub histograms: Seq<HistogramView>,
    pub exemplars: Seq<ExemplarView>,
    pub metadata: Option<Metadata>,
    pub created_timestamp: i64,
}

impl View for TimeSeries {
    type V = TimeSeriesView;

    open spec fn view(&self) -> TimeSeriesView {
        TimeSeriesView {
            labels_refs: self.labels_refs@,
            samples: self.samples@,
            histograms: views_of(self.histograms@),
            exemplars: views_of(self.exemplars@),
            metadata: self.metadata,
            created_timestamp: self.created_timestamp,
        }
    }
}

/// The metadata that a further metadata field of a series is merged into.
pub open spec fn metadata_or_blank(metadata: Option<Metadata>) -> Metadata {
    match metadata {
        Some(m) => m,
        None => Metadata::blank(),
    }
}

impl WireMessage for TimeSeries {
    open spec fn blank() -> TimeSeriesView {
        TimeSeriesView {
            labels_refs: Seq::empty(),
            samples: Seq::empty(),
            histograms: Seq::empty(),
            exemplars: Seq::empty(),
            metadata: None,
            created_timestamp: 0,
        }
    }

    open spec fn with_field(acc: TimeSeriesView, s: Seq<u8>, pos: int, tag: u32, wire: WireType, budget: nat) -> Result<(TimeSeriesView, int), DecodeError> {
        if tag == 1 {
            mapped(
                repeated_at::<UInt32>(acc.labels_refs, s, pos, wire),
                |v: Seq<u32>| TimeSeriesView { labels_refs: v, ..acc },
            )
        } else if tag == 2 {
            mapped(
                message_at::<Sample>(Sample::blank(), s, pos, wire, budget),
                |v: Sample| TimeSeriesView { samples: acc.samples.push(v), ..acc },
            )
        } else if tag == 3 {
            mapped(
                message_at::<Histogram>(Histogram::blank(), s, pos, wire, budget),
                |v: HistogramView| TimeSeriesView { histograms: acc.histograms.push(v), ..acc },
            )
        } else if tag == 4 {
            mapped(
                message_at::<Exemplar>(Exemplar::blank(), s, pos, wire, budget),
                |v: ExemplarView| TimeSeriesView { exemplars: acc.exemplars.push(v), ..acc },
            )
        } else if tag == 5 {
            mapped(
                message_at::<Metadata>(metadata_or_blank(acc.metadata), s, pos, wire, budget),
                |v: Metadata| TimeSeriesView { metadata: Some(v), ..acc },
            )
        } else if tag == 6 {
            mapped(
                scalar_at::<Int64>(s, pos, wire),
                |v: i64| TimeSeriesView { created_timestamp: v, ..acc },
            )
        } else {
            kept(acc, skip_at(s, pos, wire, tag, budget))
        }
    }

    open spec fn entry_count(v: TimeSeriesView) -> nat {
        v.samples.len() + v.histograms.len() + v.exemplars.len()
    }

    proof fn lemma_with_field(acc: Self::V, s: Seq<u8>, pos: int, tag: u32, wire: WireType, budget: nat) {
        lemma_repeated_bounds::<UInt32>(acc.labels_refs, s, pos, wire);
        lemma_message_bounds::<Sample>(Sample::blank(), s, pos, wire, budget);
        lemma_message_bounds::<Histogram>(Histogram::blank(), s, pos, wire, budget);
        lemma_message_bounds::<Exemplar>(Exemplar::blank(), s, pos, wire, budget);
        lemma_message_bounds::<Metadata>(metadata_or_blank(acc.metadata), s, pos, wire, budget);
        lemma_scalar_bounds::<Int64>(s, pos, wire);
        lemma_skip_bounds(s, pos, wire, tag, budget);
    }

    fn new_blank() -> (m: TimeSeries) {
        let m = TimeSeries {
            labels_refs: Vec::new(),
            samples: Vec::new(),
            histograms: Vec::new(),
            exemplars: Vec::new(),
            metadata: None,
            created_timestamp: 0,
        };
        assert(m@.histograms =~= Seq::empty());
        assert(m@.exemplars =~= Seq::empty());
        m
    }

    fn merge_field(&mut self, buf: &[u8], pos: usize, tag: u32, wire: WireType, budget: u32) -> (r: Result<usize, DecodeError>) {
        if tag == 1 {
            read_repeated::<UInt32>(&mut self.labels_refs, buf, pos, wire)
        } else if tag == 2 {
            let (v, next) = read_message::<Sample>(Sample::new_blank(), buf, pos, wire, budget)?;
            self.samples.push(v);
            Ok(next)
        } else if tag == 3 {
            let (v, next) = read_message::<Histogram>(Histogram::new_blank(), buf, pos, wire, budget)?;
            proof {
                lemma_views_push(self.histograms@, v);
            }
            self.histograms.push(v);
            Ok(next)
        } else if tag == 4 {
            let (v, next) = read_message::<Exemplar>(Exemplar::new_blank(), buf, pos, wire, budget)?;
            proof {
                lemma_views_push(self.exemplars@, v);
            }
            self.exemplars.push(v);
            Ok(next)
        } else if tag == 5 {
            let init = match self.metadata {
                Some(m) => m,
                None => Metadata::new_blank(),
            };
            let (v, next) = read_message::<Metadata>(init, buf, pos, wire, budget)?;
            self.metadata = Some(v);
            Ok(next)
        } else if tag == 6 {
            let (v, next) = read_scalar::<Int64>(buf, pos, wire)?;
            self.created_timestamp = v;
            Ok(next)
        } else {
            skip_field(buf, pos, wire, tag, budget)
        }
    }
}

/// How many samples the series hold together.
pub open spec fn sample_total(series: Seq<TimeSeriesView>) -> nat
    decreases series.len(),
{
    if series.len() == 0 {
        0
    } else {
        sample_total(series.drop_last()) + series.last().samples.len()
    }
}

/// How many histograms the series hold together.
pub open spec fn histogram_total(series: Seq<TimeSeriesView>) -> nat
    decreases series.len(),
{
    if series.len() == 0 {
        0
    } else {
        histogram_total(series.drop_last()) + series.last().histograms.len()
    }
}

/// How many exemplars the series hold together.
pub open spec fn exemplar_total(series: Seq<TimeSeriesView>) -> nat
    decreases series.len(),
{
    if series.len() == 0 {
        0
    } else {
        exemplar_total(series.drop_last()) + series.last().exemplars.len()
    }
}

/// The totals of a run of series with one more series behind it.
pub proof fn lemma_totals_push(series: Seq<TimeSeriesView>, one: TimeSeriesView)
    ensures
        sample_total(series.push(one)) == sample_total(series) + one.samples.len(),
        histogram_total(series.push(one)) == histogram_total(series) + one.histograms.len(),
        exemplar_total(series.push(one)) == exemplar_total(series) + one.exemplars.len(),
{
    assert(series.push(one).drop_last() =~= series);
}

/// A decoded remote-write request: the symbol table and the series.
#[derive(Clone, Debug, PartialEq, Eq)]
pub struct RemoteWriteRequest {
    pub symbols: Vec<String>,
    pub timeseries: Vec<TimeSeries>,
}

/// A request as a value.
pub struct RemoteWriteRequestView {
    pub symbols: Seq<Seq<char>>,
    pub timeseries: Seq<TimeSeriesView>,
}

impl View for RemoteWriteRequest {
    type V = RemoteWriteRequestView;

    open spec fn view(&self) -> RemoteWriteRequestView {
        RemoteWriteRequestView { symbols: views_of(self.symbols@), timeseries: views_of(self.timeseries@) }
    }
}

impl WireMessage for RemoteWriteRequest {
    open spec fn blank() -> RemoteWriteRequestView {
        RemoteWriteRequestView { symbols: Seq::empty(), timeseries: Seq::empty() }
    }

    open spec fn with_field(acc: RemoteWriteRequestView, s: Seq<u8>, pos: int, tag: u32, wire: WireType, budget: nat) -> Result<(RemoteWriteRequestView, int), DecodeError> {
        if tag == 4 {
            mapped(
                string_at(s, pos, wire),
                |v: Seq<char>| RemoteWriteRequestView { symbols: acc.symbols.push(v), ..acc },
            )
        } else if tag == 5 {
            mapped(
                message_at::<TimeSeries>(TimeSeries::blank(), s, pos, wire, budget),
                |v: TimeSeriesView| RemoteWriteRequestView { timeseries: acc.timeseries.push(v), ..acc },
            )
        } else {
            kept(acc, skip_at(s, pos, wire, tag, budget))
        }
    }

    open spec fn entry_count(v: RemoteWriteRequestView) -> nat {
        sample_total(v.timeseries) + histogram_total(v.timeseries) + exemplar_total(v.timeseries)
    }

    proof fn lemma_with_field(acc: Self::V, s: Seq<u8>, pos: int, tag: u32, wire: WireType, budget: nat) {
        lemma_string_bounds(s, pos, wire);
        lemma_message_bounds::<TimeSeries>(TimeSeries::blank(), s, pos, wire, budget);
        match message_at::<TimeSeries>(TimeSeries::blank(), s, pos, wire, budget) {
            Ok((one, _)) => {
                lemma_totals_push(acc.timeseries, one);
            },
            Err(_) => {},
        }
        lemma_skip_bounds(s, pos, wire, tag, budget);
    }

    fn new_blank() -> (m: RemoteWriteRequest) {
        let m = RemoteWriteRequest { symbols: Vec::new(), timeseries: Vec::new() };
        assert(m@.symbols =~= Seq::empty());
        assert(m@.timeseries =~= Seq::empty());
        m
    }

    fn merge_field(&mut self, buf: &[u8], pos: usize, tag: u32, wire: WireType, budget: u32) -> (r: Result<usize, DecodeError>) {
        if tag == 4 {
            let (v, next) = read_string(buf, pos, wire)?;
            proof {
                lemma_views_push(self.symbols@, v);
            }
            self.symbols.push(v);
            Ok(next)
        } else if tag == 5 {
            let (v, next) = read_message::<TimeSeries>(TimeSeries::new_blank(), buf, pos, wire, budget)?;
            proof {
                lemma_views_push(self.timeseries@, v);
            }
            self.timeseries.push(v);
            Ok(next)
        } else {
            skip_field(buf, pos, wire, tag, budget)
        }
    }
}

/// The request that a byte sequence encodes, or what keeps it from being
/// one.
pub open spec fn request_of(bytes: Seq<u8>) -> Result<RemoteWriteRequestView, DecodeError> {
    message_of::<RemoteWriteRequest>(bytes, RECURSION_LIMIT as nat)
}

/// A decoding outcome as a value.
pub open spec fn decoded_of(r: Result<RemoteWriteRequest, DecodeError>) -> Result<RemoteWriteRequestView, DecodeError> {
    match r {
        Ok(request) => Ok(request@),
        Err(e) => Err(e),
    }
}

/// Decodes a remote-write request. Fields that the messages do not know
/// are stepped over.
pub fn decode_request(bytes: &[u8]) -> (r: Result<RemoteWriteRequest, DecodeError>)
    ensures
        decoded_of(r) == request_of(bytes@),
{
    decode_message::<RemoteWriteRequest>(bytes, RECURSION_LIMIT)
}

/// A request holds at most half as many samples, histograms and exemplars
/// as its encoding has bytes.
pub proof fn lemma_request_entries(bytes: Seq<u8>)
    ensures
        request_of(bytes) matches Ok(request) ==> 2 * (sample_total(request.timeseries) + histogram_total(
            request.timeseries,
        ) + exemplar_total(request.timeseries)) <= bytes.len(),
{
    lemma_entries_bounded::<RemoteWriteRequest>(bytes, RECURSION_LIMIT as nat);
}

} // verus!

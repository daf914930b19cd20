//! How the messages of a remote-write batch are written, and that each is
//! read back as it was written.

use crate::encoding::{
    holds_at, lemma_holds_split, lemma_messages_step, lemma_optional_message_step,
    lemma_optional_step, lemma_repeated_step, lemma_strings_step, messages_bytes, optional_bytes,
    optional_message_bytes, repeated_bytes, strings_bytes, write_messages, write_optional,
    write_optional_message, write_repeated, write_strings, MessageEncoding,
};
use crate::message::{fields_from, message_at, string_at, WireMessage};
use crate::remote_write::{
    mapped, request_of, views_of, BucketSpan, Count, Exemplar, ExemplarView, Histogram,
    HistogramView, Metadata, RemoteWriteRequest, RemoteWriteRequestView, Sample, TimeSeries,
    TimeSeriesView,
};
use crate::scalar::{
    repeated_at, scalar_at, Double, Int32, Int64, SInt32, SInt64, Scalar, UInt32, UInt64,
};
use crate::wire::{DecodeError, WireType, RECURSION_LIMIT};
use vstd::prelude::*;

verus! {

/// That a count is a whole number.
pub open spec fn is_whole(count: Option<Count>) -> bool {
    count matches Some(Count::Int(_))
}

/// That a count is a fraction.
pub open spec fn is_fraction(count: Option<Count>) -> bool {
    count matches Some(Count::Float(_))
}

/// The number that a whole count holds.
pub open spec fn whole_of(count: Option<Count>) -> u64 {
    match count {
        Some(Count::Int(x)) => x,
        _ => 0,
    }
}

/// The bits that a fractional count holds.
pub open spec fn fraction_of(count: Option<Count>) -> u64 {
    match count {
        Some(Count::Float(x)) => x,
        _ => 0,
    }
}

/// The number of a whole count, and whether the count is one.
fn whole_part(count: &Option<Count>) -> (part: (u64, bool))
    ensures
        part.0 == whole_of(*count),
        part.1 == is_whole(*count),
{
    match count {
        Some(Count::Int(x)) => (*x, true),
        _ => (0, false),
    }
}

/// The bits of a fractional count, and whether the count is one.
fn fraction_part(count: &Option<Count>) -> (part: (u64, bool))
    ensures
        part.0 == fraction_of(*count),
        part.1 == is_fraction(*count),
{
    match count {
        Some(Count::Float(x)) => (*x, true),
        _ => (0, false),
    }
}

/// The fields of a sample up to field 1.
spec fn sample_upto_1(v: Sample) -> Seq<u8> {
    optional_bytes::<Double>(1, v.value, v.value != 0)
}

/// What is read of a sample behind field 1.
spec fn sample_taken_1(v: Sample) -> Sample {
    let prev = Sample::blank();
    if v.value != 0 { Sample { value: v.value, ..prev } } else { prev }
}

proof fn lemma_sample_upto_1(v: Sample, s: Seq<u8>, pos: int, limit: int, budget: nat)
    requires
        holds_at(s, pos, sample_upto_1(v)),
        pos + sample_upto_1(v).len() <= limit,
        sample_upto_1(v).len() <= u64::MAX,
        budget >= Sample::depth(),
    ensures
        fields_from::<Sample>(Sample::blank(), s, pos, limit, budget) == fields_from::<Sample>(
            sample_taken_1(v),
            s,
            pos + sample_upto_1(v).len(),
            limit,
            budget,
        ),
{
    let prev = Sample::blank();
    let at = pos;
    let put = |x: u64| Sample { value: x, ..prev };
    assert forall|p: int| #[trigger]
        Sample::with_field(prev, s, p, 1, Double::wire(), budget) == mapped(scalar_at::<Double>(s, p, Double::wire()), put) by {}
    lemma_optional_step::<Sample, Double>(prev, put, s, at, limit, budget, 1, v.value, v.value != 0);
}

/// The fields of a sample up to field 2.
spec fn sample_upto_2(v: Sample) -> Seq<u8> {
    sample_upto_1(v) + optional_bytes::<Int64>(2, v.timestamp, v.timestamp != 0)
}

/// What is read of a sample behind field 2.
spec fn sample_taken_2(v: Sample) -> Sample {
    let prev = sample_taken_1(v);
    if v.timestamp != 0 { Sample { timestamp: v.timestamp, ..prev } } else { prev }
}

proof fn lemma_sample_upto_2(v: Sample, s: Seq<u8>, pos: int, limit: int, budget: nat)
    requires
        holds_at(s, pos, sample_upto_2(v)),
        pos + sample_upto_2(v).len() <= limit,
        sample_upto_2(v).len() <= u64::MAX,
        budget >= Sample::depth(),
    ensures
        fields_from::<Sample>(Sample::blank(), s, pos, limit, budget) == fields_from::<Sample>(
            sample_taken_2(v),
            s,
            pos + sample_upto_2(v).len(),
            limit,
            budget,
        ),
{
    let prev = sample_taken_1(v);
    let at = pos + sample_upto_1(v).len();
    lemma_holds_split(s, pos, sample_upto_1(v), optional_bytes::<Int64>(2, v.timestamp, v.timestamp != 0));
    lemma_sample_upto_1(v, s, pos, limit, budget);
    let put = |x: i64| Sample { timestamp: x, ..prev };
    assert forall|p: int| #[trigger]
        Sample::with_field(prev, s, p, 2, Int64::wire(), budget) == mapped(scalar_at::<Int64>(s, p, Int64::wire()), put) by {}
    lemma_optional_step::<Sample, Int64>(prev, put, s, at, limit, budget, 2, v.timestamp, v.timestamp != 0);
}

impl MessageEncoding for Sample {
    /// A sample: its value, then its timestamp.
    open spec fn encoding(v: Sample) -> Seq<u8> {
        optional_bytes::<Double>(1, v.value, v.value != 0)
            + optional_bytes::<Int64>(2, v.timestamp, v.timestamp != 0)
    }

    open spec fn depth() -> nat {
        0
    }

    proof fn lemma_round_trip(v: Sample, s: Seq<u8>, pos: int, budget: nat) {
        assert(Sample::encoding(v) == sample_upto_2(v));
        lemma_sample_upto_2(v, s, pos, pos + Sample::encoding(v).len(), budget);
        assert(sample_taken_2(v) == v);
    }

    fn encode_into(&self, out: &mut Vec<u8>) {
        write_optional::<Double>(out, 1, &self.value, self.value != 0);
        assert(out@ =~= old(out)@ + sample_upto_1(self@));
        write_optional::<Int64>(out, 2, &self.timestamp, self.timestamp != 0);
        assert(out@ =~= old(out)@ + sample_upto_2(self@));
    }
}

/// The fields of an exemplar up to field 1.
spec fn exemplar_upto_1(v: ExemplarView) -> Seq<u8> {
    repeated_bytes::<UInt32>(1, v.labels_refs)
}

/// What is read of an exemplar behind field 1.
spec fn exemplar_taken_1(v: ExemplarView) -> ExemplarView {
    let prev = Exemplar::blank();
    ExemplarView { labels_refs: v.labels_refs, ..prev }
}

proof fn lemma_exemplar_upto_1(v: ExemplarView, s: Seq<u8>, pos: int, limit: int, budget: nat)
    requires
        holds_at(s, pos, exemplar_upto_1(v)),
        pos + exemplar_upto_1(v).len() <= limit,
        exemplar_upto_1(v).len() <= u64::MAX,
        budget >= Exemplar::depth(),
    ensures
        fields_from::<Exemplar>(Exemplar::blank(), s, pos, limit, budget) == fields_from::<Exemplar>(
            exemplar_taken_1(v),
            s,
            pos + exemplar_upto_1(v).len(),
            limit,
            budget,
        ),
{
    let prev = Exemplar::blank();
    let at = pos;
    let put = |l: Seq<u32>| ExemplarView { labels_refs: l, ..prev };
    assert(prev.labels_refs =~= Seq::empty());
    assert forall|p: int| #[trigger]
        Exemplar::with_field(prev, s, p, 1, WireType::LengthDelimited, budget) == mapped(
            repeated_at::<UInt32>(Seq::empty(), s, p, WireType::LengthDelimited),
            put,
        ) by {}
    lemma_repeated_step::<Exemplar, UInt32>(prev, Seq::empty(), put, s, at, limit, budget, 1, v.labels_refs);
    assert(Seq::<u32>::empty() + v.labels_refs =~= v.labels_refs);
}

/// The fields of an exemplar up to field 2.
spec fn exemplar_upto_2(v: ExemplarView) -> Seq<u8> {
    exemplar_upto_1(v) + optional_bytes::<Double>(2, v.value, v.value != 0)
}

/// What is read of an exemplar behind field 2.
spec fn exemplar_taken_2(v: ExemplarView) -> ExemplarView {
    let prev = exemplar_taken_1(v);
    if v.value != 0 { ExemplarView { value: v.value, ..prev } } else { prev }
}

proof fn lemma_exemplar_upto_2(v: ExemplarView, s: Seq<u8>, pos: int, limit: int, budget: nat)
    requires
        holds_at(s, pos, exemplar_upto_2(v)),
        pos + exemplar_upto_2(v).len() <= limit,
        exemplar_upto_2(v).len() <= u64::MAX,
        budget >= Exemplar::depth(),
    ensures
        fields_from::<Exemplar>(Exemplar::blank(), s, pos, limit, budget) == fields_from::<Exemplar>(
            exemplar_taken_2(v),
            s,
            pos + exemplar_upto_2(v).len(),
            limit,
            budget,
        ),
{
    let prev = exemplar_taken_1(v);
    let at = pos + exemplar_upto_1(v).len();
    lemma_holds_split(s, pos, exemplar_upto_1(v), optional_bytes::<Double>(2, v.value, v.value != 0));
    lemma_exemplar_upto_1(v, s, pos, limit, budget);
    let put = |x: u64| ExemplarView { value: x, ..prev };
    assert forall|p: int| #[trigger]
        Exemplar::with_field(prev, s, p, 2, Double::wire(), budget) == mapped(scalar_at::<Double>(s, p, Double::wire()), put) by {}
    lemma_optional_step::<Exemplar, Double>(prev, put, s, at, limit, budget, 2, v.value, v.value != 0);
}

/// The fields of an exemplar up to field 3.
spec fn exemplar_upto_3(v: ExemplarView) -> Seq<u8> {
    exemplar_upto_2(v) + optional_bytes::<Int64>(3, v.timestamp, v.timestamp != 0)
}

/// What is read of an exemplar behind field 3.
spec fn exemplar_taken_3(v: ExemplarView) -> ExemplarView {
    let prev = exemplar_taken_2(v);
    if v.timestamp != 0 { ExemplarView { timestamp: v.timestamp, ..prev } } else { prev }
}

proof fn lemma_exemplar_upto_3(v: ExemplarView, s: Seq<u8>, pos: int, limit: int, budget: nat)
    requires
        holds_at(s, pos, exemplar_upto_3(v)),
        pos + exemplar_upto_3(v).len() <= limit,
        exemplar_upto_3(v).len() <= u64::MAX,
        budget >= Exemplar::depth(),
    ensures
        fields_from::<Exemplar>(Exemplar::blank(), s, pos, limit, budget) == fields_from::<Exemplar>(
            exemplar_taken_3(v),
            s,
            pos + exemplar_upto_3(v).len(),
            limit,
            budget,
        ),
{
    let prev = exemplar_taken_2(v);
    let at = pos + exemplar_upto_2(v).len();
    lemma_holds_split(s, pos, exemplar_upto_2(v), optional_bytes::<Int64>(3, v.timestamp, v.timestamp != 0));
    lemma_exemplar_upto_2(v, s, pos, limit, budget);
    let put = |x: i64| ExemplarView { timestamp: x, ..prev };
    assert forall|p: int| #[trigger]
        Exemplar::with_field(prev, s, p, 3, Int64::wire(), budget) == mapped(scalar_at::<Int64>(s, p, Int64::wire()), put) by {}
    lemma_optional_step::<Exemplar, Int64>(prev, put, s, at, limit, budget, 3, v.timestamp, v.timestamp != 0);
}

impl MessageEncoding for Exemplar {
    /// An exemplar: its label references, its value, its timestamp.
    open spec fn encoding(v: ExemplarView) -> Seq<u8> {
        repeated_bytes::<UInt32>(1, v.labels_refs)
            + optional_bytes::<Double>(2, v.value, v.value != 0)
            + optional_bytes::<Int64>(3, v.timestamp, v.timestamp != 0)
    }

    open spec fn depth() -> nat {
        0
    }

    proof fn lemma_round_trip(v: ExemplarView, s: Seq<u8>, pos: int, budget: nat) {
        assert(Exemplar::encoding(v) == exemplar_upto_3(v));
        lemma_exemplar_upto_3(v, s, pos, pos + Exemplar::encoding(v).len(), budget);
        assert(exemplar_taken_3(v) == v);
    }

    fn encode_into(&self, out: &mut Vec<u8>) {
        write_repeated::<UInt32>(out, 1, &self.labels_refs);
        assert(out@ =~= old(out)@ + exemplar_upto_1(self@));
        write_optional::<Double>(out, 2, &self.value, self.value != 0);
        assert(out@ =~= old(out)@ + exemplar_upto_2(self@));
        write_optional::<Int64>(out, 3, &self.timestamp, self.timestamp != 0);
        assert(out@ =~= old(out)@ + exemplar_upto_3(self@));
    }
}

/// The fields of a bucket span up to field 1.
spec fn bucket_span_upto_1(v: BucketSpan) -> Seq<u8> {
    optional_bytes::<SInt32>(1, v.offset, v.offset != 0)
}

/// What is read of a bucket span behind field 1.
spec fn bucket_span_taken_1(v: BucketSpan) -> BucketSpan {
    let prev = BucketSpan::blank();
    if v.offset != 0 { BucketSpan { offset: v.offset, ..prev } } else { prev }
}

proof fn lemma_bucket_span_upto_1(v: BucketSpan, s: Seq<u8>, pos: int, limit: int, budget: nat)
    requires
        holds_at(s, pos, bucket_span_upto_1(v)),
        pos + bucket_span_upto_1(v).len() <= limit,
        bucket_span_upto_1(v).len() <= u64::MAX,
        budget >= BucketSpan::depth(),
    ensures
        fields_from::<BucketSpan>(BucketSpan::blank(), s, pos, limit, budget) == fields_from::<BucketSpan>(
            bucket_span_taken_1(v),
            s,
            pos + bucket_span_upto_1(v).len(),
            limit,
            budget,
        ),
{
    let prev = BucketSpan::blank();
    let at = pos;
    let put = |x: i32| BucketSpan { offset: x, ..prev };
    assert forall|p: int| #[trigger]
        BucketSpan::with_field(prev, s, p, 1, SInt32::wire(), budget) == mapped(scalar_at::<SInt32>(s, p, SInt32::wire()), put) by {}
    lemma_optional_step::<BucketSpan, SInt32>(prev, put, s, at, limit, budget, 1, v.offset, v.offset != 0);
}

/// The fields of a bucket span up to field 2.
spec fn bucket_span_upto_2(v: BucketSpan) -> Seq<u8> {
    bucket_span_upto_1(v) + optional_bytes::<UInt32>(2, v.length, v.length != 0)
}

/// What is read of a bucket span behind field 2.
spec fn bucket_span_taken_2(v: BucketSpan) -> BucketSpan {
    let prev = bucket_span_taken_1(v);
    if v.length != 0 { BucketSpan { length: v.length, ..prev } } else { prev }
}

proof fn lemma_bucket_span_upto_2(v: BucketSpan, s: Seq<u8>, pos: int, limit: int, budget: nat)
    requires
        holds_at(s, pos, bucket_span_upto_2(v)),
        pos + bucket_span_upto_2(v).len() <= limit,
        bucket_span_upto_2(v).len() <= u64::MAX,
        budget >= BucketSpan::depth(),
    ensures
        fields_from::<BucketSpan>(BucketSpan::blank(), s, pos, limit, budget) == fields_from::<BucketSpan>(
            bucket_span_taken_2(v),
            s,
            pos + bucket_span_upto_2(v).len(),
            limit,
            budget,
        ),
{
    let prev = bucket_span_taken_1(v);
    let at = pos + bucket_span_upto_1(v).len();
    lemma_holds_split(s, pos, bucket_span_upto_1(v), optional_bytes::<UInt32>(2, v.length, v.length != 0));
    lemma_bucket_span_upto_1(v, s, pos, limit, budget);
    let put = |x: u32| BucketSpan { length: x, ..prev };
    assert forall|p: int| #[trigger]
        BucketSpan::with_field(prev, s, p, 2, UInt32::wire(), budget) == mapped(scalar_at::<UInt32>(s, p, UInt32::wire()), put) by {}
    lemma_optional_step::<BucketSpan, UInt32>(prev, put, s, at, limit, budget, 2, v.length, v.length != 0);
}

impl MessageEncoding for BucketSpan {
    /// A bucket span: its offset, then its length.
    open spec fn encoding(v: BucketSpan) -> Seq<u8> {
        optional_bytes::<SInt32>(1, v.offset, v.offset != 0)
            + optional_bytes::<UInt32>(2, v.length, v.length != 0)
    }

    open spec fn depth() -> nat {
        0
    }

    proof fn lemma_round_trip(v: BucketSpan, s: Seq<u8>, pos: int, budget: nat) {
        assert(BucketSpan::encoding(v) == bucket_span_upto_2(v));
        lemma_bucket_span_upto_2(v, s, pos, pos + BucketSpan::encoding(v).len(), budget);
        assert(bucket_span_taken_2(v) == v);
    }

    fn encode_into(&self, out: &mut Vec<u8>) {
        write_optional::<SInt32>(out, 1, &self.offset, self.offset != 0);
        assert(out@ =~= old(out)@ + bucket_span_upto_1(self@));
        write_optional::<UInt32>(out, 2, &self.length, self.length != 0);
        assert(out@ =~= old(out)@ + bucket_span_upto_2(self@));
    }
}

/// The fields of metadata up to field 1.
spec fn metadata_upto_1(v: Metadata) -> Seq<u8> {
    optional_bytes::<Int32>(1, v.metric_type, v.metric_type != 0)
}

/// What is read of metadata behind field 1.
spec fn metadata_taken_1(v: Metadata) -> Metadata {
    let prev = Metadata::blank();
    if v.metric_type != 0 { Metadata { metric_type: v.metric_type, ..prev } } else { prev }
}

proof fn lemma_metadata_upto_1(v: Metadata, s: Seq<u8>, pos: int, limit: int, budget: nat)
    requires
        holds_at(s, pos, metadata_upto_1(v)),
        pos + metadata_upto_1(v).len() <= limit,
        metadata_upto_1(v).len() <= u64::MAX,
        budget >= Metadata::depth(),
    ensures
        fields_from::<Metadata>(Metadata::blank(), s, pos, limit, budget) == fields_from::<Metadata>(
            metadata_taken_1(v),
            s,
            pos + metadata_upto_1(v).len(),
            limit,
            budget,
        ),
{
    let prev = Metadata::blank();
    let at = pos;
    let put = |x: i32| Metadata { metric_type: x, ..prev };
    assert forall|p: int| #[trigger]
        Metadata::with_field(prev, s, p, 1, Int32::wire(), budget) == mapped(scalar_at::<Int32>(s, p, Int32::wire()), put) by {}
    lemma_optional_step::<Metadata, Int32>(prev, put, s, at, limit, budget, 1, v.metric_type, v.metric_type != 0);
}

/// The fields of metadata up to field 3.
spec fn metadata_upto_3(v: Metadata) -> Seq<u8> {
    metadata_upto_1(v) + optional_bytes::<UInt32>(3, v.help_ref, v.help_ref != 0)
}

/// What is read of metadata behind field 3.
spec fn metadata_taken_3(v: Metadata) -> Metadata {
    let prev = metadata_taken_1(v);
    if v.help_ref != 0 { Metadata { help_ref: v.help_ref, ..prev } } else { prev }
}

proof fn lemma_metadata_upto_3(v: Metadata, s: Seq<u8>, pos: int, limit: int, budget: nat)
    requires
        holds_at(s, pos, metadata_upto_3(v)),
        pos + metadata_upto_3(v).len() <= limit,
        metadata_upto_3(v).len() <= u64::MAX,
        budget >= Metadata::depth(),
    ensures
        fields_from::<Metadata>(Metadata::blank(), s, pos, limit, budget) == fields_from::<Metadata>(
            metadata_taken_3(v),
            s,
            pos + metadata_upto_3(v).len(),
            limit,
            budget,
        ),
{
    let prev = metadata_taken_1(v);
    let at = pos + metadata_upto_1(v).len();
    lemma_holds_split(s, pos, metadata_upto_1(v), optional_bytes::<UInt32>(3, v.help_ref, v.help_ref != 0));
    lemma_metadata_upto_1(v, s, pos, limit, budget);
    let put = |x: u32| Metadata { help_ref: x, ..prev };
    assert forall|p: int| #[trigger]
        Metadata::with_field(prev, s, p, 3, UInt32::wire(), budget) == mapped(scalar_at::<UInt32>(s, p, UInt32::wire()), put) by {}
    lemma_optional_step::<Metadata, UInt32>(prev, put, s, at, limit, budget, 3, v.help_ref, v.help_ref != 0);
}

/// The fields of metadata up to field 4.
spec fn metadata_upto_4(v: Metadata) -> Seq<u8> {
    metadata_upto_3(v) + optional_bytes::<UInt32>(4, v.unit_ref, v.unit_ref != 0)
}

/// What is read of metadata behind field 4.
spec fn metadata_taken_4(v: Metadata) -> Metadata {
    let prev = metadata_taken_3(v);
    if v.unit_ref != 0 { Metadata { unit_ref: v.unit_ref, ..prev } } else { prev }
}

proof fn lemma_metadata_upto_4(v: Metadata, s: Seq<u8>, pos: int, limit: int, budget: nat)
    requires
        holds_at(s, pos, metadata_upto_4(v)),
        pos + metadata_upto_4(v).len() <= limit,
        metadata_upto_4(v).len() <= u64::MAX,
        budget >= Metadata::depth(),
    ensures
        fields_from::<Metadata>(Metadata::blank(), s, pos, limit, budget) == fields_from::<Metadata>(
            metadata_taken_4(v),
            s,
            pos + metadata_upto_4(v).len(),
            limit,
            budget,
        ),
{
    let prev = metadata_taken_3(v);
    let at = pos + metadata_upto_3(v).len();
    lemma_holds_split(s, pos, metadata_upto_3(v), optional_bytes::<UInt32>(4, v.unit_ref, v.unit_ref != 0));
    lemma_metadata_upto_3(v, s, pos, limit, budget);
    let put = |x: u32| Metadata { unit_ref: x, ..prev };
    assert forall|p: int| #[trigger]
        Metadata::with_field(prev, s, p, 4, UInt32::wire(), budget) == mapped(scalar_at::<UInt32>(s, p, UInt32::wire()), put) by {}
    lemma_optional_step::<Metadata, UInt32>(prev, put, s, at, limit, budget, 4, v.unit_ref, v.unit_ref != 0);
}

impl MessageEncoding for Metadata {
    /// Metadata: the metric type and the two references.
    open spec fn encoding(v: Metadata) -> Seq<u8> {
        optional_bytes::<Int32>(1, v.metric_type, v.metric_type != 0)
            + optional_bytes::<UInt32>(3, v.help_ref, v.help_ref != 0)
            + optional_bytes::<UInt32>(4, v.unit_ref, v.unit_ref != 0)
    }

    open spec fn depth() -> nat {
        0
    }

    proof fn lemma_round_trip(v: Metadata, s: Seq<u8>, pos: int, budget: nat) {
        assert(Metadata::encoding(v) == metadata_upto_4(v));
        lemma_metadata_upto_4(v, s, pos, pos + Metadata::encoding(v).len(), budget);
        assert(metadata_taken_4(v) == v);
    }

    fn encode_into(&self, out: &mut Vec<u8>) {
        write_optional::<Int32>(out, 1, &self.metric_type, self.metric_type != 0);
        assert(out@ =~= old(out)@ + metadata_upto_1(self@));
        write_optional::<UInt32>(out, 3, &self.help_ref, self.help_ref != 0);
        assert(out@ =~= old(out)@ + metadata_upto_3(self@));
        write_optional::<UInt32>(out, 4, &self.unit_ref, self.unit_ref != 0);
        assert(out@ =~= old(out)@ + metadata_upto_4(self@));
    }
}

/// The fields of a histogram up to field 1.
spec fn histogram_upto_1(v: HistogramView) -> Seq<u8> {
    optional_bytes::<UInt64>(1, whole_of(v.count), is_whole(v.count))
}

/// What is read of a histogram behind field 1.
spec fn histogram_taken_1(v: HistogramView) -> HistogramView {
    let prev = Histogram::blank();
    if is_whole(v.count) { HistogramView { count: Some(Count::Int(whole_of(v.count))), ..prev } } else { prev }
}

proof fn lemma_histogram_upto_1(v: HistogramView, s: Seq<u8>, pos: int, limit: int, budget: nat)
    requires
        holds_at(s, pos, histogram_upto_1(v)),
        pos + histogram_upto_1(v).len() <= limit,
        histogram_upto_1(v).len() <= u64::MAX,
        budget >= Histogram::depth(),
    ensures
        fields_from::<Histogram>(Histogram::blank(), s, pos, limit, budget) == fields_from::<Histogram>(
            histogram_taken_1(v),
            s,
            pos + histogram_upto_1(v).len(),
            limit,
            budget,
        ),
        histogram_taken_1(v).negative_spans.len() == 0,
        histogram_taken_1(v).negative_deltas.len() == 0,
        histogram_taken_1(v).negative_counts.len() == 0,
        histogram_taken_1(v).positive_spans.len() == 0,
        histogram_taken_1(v).positive_deltas.len() == 0,
        histogram_taken_1(v).positive_counts.len() == 0,
        histogram_taken_1(v).custom_values.len() == 0,
{
    let prev = Histogram::blank();
    let at = pos;
    let put = |x: u64| HistogramView { count: Some(Count::Int(x)), ..prev };
    assert forall|p: int| #[trigger]
        Histogram::with_field(prev, s, p, 1, UInt64::wire(), budget) == mapped(scalar_at::<UInt64>(s, p, UInt64::wire()), put) by {}
    lemma_optional_step::<Histogram, UInt64>(prev, put, s, at, limit, budget, 1, whole_of(v.count), is_whole(v.count));
}

/// The fields of a histogram up to field 2.
spec fn histogram_upto_2(v: HistogramView) -> Seq<u8> {
    histogram_upto_1(v) + optional_bytes::<Double>(2, fraction_of(v.count), is_fraction(v.count))
}

/// What is read of a histogram behind field 2.
spec fn histogram_taken_2(v: HistogramView) -> HistogramView {
    let prev = histogram_taken_1(v);
    if is_fraction(v.count) { HistogramView { count: Some(Count::Float(fraction_of(v.count))), ..prev } } else { prev }
}

proof fn lemma_histogram_upto_2(v: HistogramView, s: Seq<u8>, pos: int, limit: int, budget: nat)
    requires
        holds_at(s, pos, histogram_upto_2(v)),
        pos + histogram_upto_2(v).len() <= limit,
        histogram_upto_2(v).len() <= u64::MAX,
        budget >= Histogram::depth(),
    ensures
        fields_from::<Histogram>(Histogram::blank(), s, pos, limit, budget) == fields_from::<Histogram>(
            histogram_taken_2(v),
            s,
            pos + histogram_upto_2(v).len(),
            limit,
            budget,
        ),
        histogram_taken_2(v).negative_spans.len() == 0,
        histogram_taken_2(v).negative_deltas.len() == 0,
        histogram_taken_2(v).negative_counts.len() == 0,
        histogram_taken_2(v).positive_spans.len() == 0,
        histogram_taken_2(v).positive_deltas.len() == 0,
        histogram_taken_2(v).positive_counts.len() == 0,
        histogram_taken_2(v).custom_values.len() == 0,
{
    let prev = histogram_taken_1(v);
    let at = pos + histogram_upto_1(v).len();
    lemma_holds_split(s, pos, histogram_upto_1(v), optional_bytes::<Double>(2, fraction_of(v.count), is_fraction(v.count)));
    lemma_histogram_upto_1(v, s, pos, limit, budget);
    let put = |x: u64| HistogramView { count: Some(Count::Float(x)), ..prev };
    assert forall|p: int| #[trigger]
        Histogram::with_field(prev, s, p, 2, Double::wire(), budget) == mapped(scalar_at::<Double>(s, p, Double::wire()), put) by {}
    lemma_optional_step::<Histogram, Double>(prev, put, s, at, limit, budget, 2, fraction_of(v.count), is_fraction(v.count));
}

/// The fields of a histogram up to field 3.
spec fn histogram_upto_3(v: HistogramView) -> Seq<u8> {
    histogram_upto_2(v) + optional_bytes::<Double>(3, v.sum, v.sum != 0)
}

/// What is read of a histogram behind field 3.
spec fn histogram_taken_3(v: HistogramView) -> HistogramView {
    let prev = histogram_taken_2(v);
    if v.sum != 0 { HistogramView { sum: v.sum, ..prev } } else { prev }
}

proof fn lemma_histogram_upto_3(v: HistogramView, s: Seq<u8>, pos: int, limit: int, budget: nat)
    requires
        holds_at(s, pos, histogram_upto_3(v)),
        pos + histogram_upto_3(v).len() <= limit,
        histogram_upto_3(v).len() <= u64::MAX,
        budget >= Histogram::depth(),
    ensures
        fields_from::<Histogram>(Histogram::blank(), s, pos, limit, budget) == fields_from::<Histogram>(
            histogram_taken_3(v),
            s,
            pos + histogram_upto_3(v).len(),
            limit,
            budget,
        ),
        histogram_taken_3(v).negative_spans.len() == 0,
        histogram_taken_3(v).negative_deltas.len() == 0,
        histogram_taken_3(v).negative_counts.len() == 0,
        histogram_taken_3(v).positive_spans.len() == 0,
        histogram_taken_3(v).positive_deltas.len() == 0,
        histogram_taken_3(v).positive_counts.len() == 0,
        histogram_taken_3(v).custom_values.len() == 0,
{
    let prev = histogram_taken_2(v);
    let at = pos + histogram_upto_2(v).len();
    lemma_holds_split(s, pos, histogram_upto_2(v), optional_bytes::<Double>(3, v.sum, v.sum != 0));
    lemma_histogram_upto_2(v, s, pos, limit, budget);
    let put = |x: u64| HistogramView { sum: x, ..prev };
    assert forall|p: int| #[trigger]
        Histogram::with_field(prev, s, p, 3, Double::wire(), budget) == mapped(scalar_at::<Double>(s, p, Double::wire()), put) by {}
    lemma_optional_step::<Histogram, Double>(prev, put, s, at, limit, budget, 3, v.sum, v.sum != 0);
}

/// The fields of a histogram up to field 4.
spec fn histogram_upto_4(v: HistogramView) -> Seq<u8> {
    histogram_upto_3(v) + optional_bytes::<SInt32>(4, v.schema, v.schema != 0)
}

/// What is read of a histogram behind field 4.
spec fn histogram_taken_4(v: HistogramView) -> HistogramView {
    let prev = histogram_taken_3(v);
    if v.schema != 0 { HistogramView { schema: v.schema, ..prev } } else { prev }
}

proof fn lemma_histogram_upto_4(v: HistogramView, s: Seq<u8>, pos: int, limit: int, budget: nat)
    requires
        holds_at(s, pos, histogram_upto_4(v)),
        pos + histogram_upto_4(v).len() <= limit,
        histogram_upto_4(v).len() <= u64::MAX,
        budget >= Histogram::depth(),
    ensures
        fields_from::<Histogram>(Histogram::blank(), s, pos, limit, budget) == fields_from::<Histogram>(
            histogram_taken_4(v),
            s,
            pos + histogram_upto_4(v).len(),
            limit,
            budget,
        ),
        histogram_taken_4(v).negative_spans.len() == 0,
        histogram_taken_4(v).negative_deltas.len() == 0,
        histogram_taken_4(v).negative_counts.len() == 0,
        histogram_taken_4(v).positive_spans.len() == 0,
        histogram_taken_4(v).positive_deltas.len() == 0,
        histogram_taken_4(v).positive_counts.len() == 0,
        histogram_taken_4(v).custom_values.len() == 0,
{
    let prev = histogram_taken_3(v);
    let at = pos + histogram_upto_3(v).len();
    lemma_holds_split(s, pos, histogram_upto_3(v), optional_bytes::<SInt32>(4, v.schema, v.schema != 0));
    lemma_histogram_upto_3(v, s, pos, limit, budget);
    let put = |x: i32| HistogramView { schema: x, ..prev };
    assert forall|p: int| #[trigger]
        Histogram::with_field(prev, s, p, 4, SInt32::wire(), budget) == mapped(scalar_at::<SInt32>(s, p, SInt32::wire()), put) by {}
    lemma_optional_step::<Histogram, SInt32>(prev, put, s, at, limit, budget, 4, v.schema, v.schema != 0);
}

/// The fields of a histogram up to field 5.
spec fn histogram_upto_5(v: HistogramView) -> Seq<u8> {
    histogram_upto_4(v) + optional_bytes::<Double>(5, v.zero_threshold, v.zero_threshold != 0)
}

/// What is read of a histogram behind field 5.
spec fn histogram_taken_5(v: HistogramView) -> HistogramView {
    let prev = histogram_taken_4(v);
    if v.zero_threshold != 0 { HistogramView { zero_threshold: v.zero_threshold, ..prev } } else { prev }
}

proof fn lemma_histogram_upto_5(v: HistogramView, s: Seq<u8>, pos: int, limit: int, budget: nat)
    requires
        holds_at(s, pos, histogram_upto_5(v)),
        pos + histogram_upto_5(v).len() <= limit,
        histogram_upto_5(v).len() <= u64::MAX,
        budget >= Histogram::depth(),
    ensures
        fields_from::<Histogram>(Histogram::blank(), s, pos, limit, budget) == fields_from::<Histogram>(
            histogram_taken_5(v),
            s,
            pos + histogram_upto_5(v).len(),
            limit,
            budget,
        ),
        histogram_taken_5(v).negative_spans.len() == 0,
        histogram_taken_5(v).negative_deltas.len() == 0,
        histogram_taken_5(v).negative_counts.len() == 0,
        histogram_taken_5(v).positive_spans.len() == 0,
        histogram_taken_5(v).positive_deltas.len() == 0,
        histogram_taken_5(v).positive_counts.len() == 0,
        histogram_taken_5(v).custom_values.len() == 0,
{
    let prev = histogram_taken_4(v);
    let at = pos + histogram_upto_4(v).len();
    lemma_holds_split(s, pos, histogram_upto_4(v), optional_bytes::<Double>(5, v.zero_threshold, v.zero_threshold != 0));
    lemma_histogram_upto_4(v, s, pos, limit, budget);
    let put = |x: u64| HistogramView { zero_threshold: x, ..prev };
    assert forall|p: int| #[trigger]
        Histogram::with_field(prev, s, p, 5, Double::wire(), budget) == mapped(scalar_at::<Double>(s, p, Double::wire()), put) by {}
    lemma_optional_step::<Histogram, Double>(prev, put, s, at, limit, budget, 5, v.zero_threshold, v.zero_threshold != 0);
}

/// The fields of a histogram up to field 6.
spec fn histogram_upto_6(v: HistogramView) -> Seq<u8> {
    histogram_upto_5(v) + optional_bytes::<UInt64>(6, whole_of(v.zero_count), is_whole(v.zero_count))
}

/// What is read of a histogram behind field 6.
spec fn histogram_taken_6(v: HistogramView) -> HistogramView {
    let prev = histogram_taken_5(v);
    if is_whole(v.zero_count) { HistogramView { zero_count: Some(Count::Int(whole_of(v.zero_count))), ..prev } } else { prev }
}

proof fn lemma_histogram_upto_6(v: HistogramView, s: Seq<u8>, pos: int, limit: int, budget: nat)
    requires
        holds_at(s, pos, histogram_upto_6(v)),
        pos + histogram_upto_6(v).len() <= limit,
        histogram_upto_6(v).len() <= u64::MAX,
        budget >= Histogram::depth(),
    ensures
        fields_from::<Histogram>(Histogram::blank(), s, pos, limit, budget) == fields_from::<Histogram>(
            histogram_taken_6(v),
            s,
            pos + histogram_upto_6(v).len(),
            limit,
            budget,
        ),
        histogram_taken_6(v).negative_spans.len() == 0,
        histogram_taken_6(v).negative_deltas.len() == 0,
        histogram_taken_6(v).negative_counts.len() == 0,
        histogram_taken_6(v).positive_spans.len() == 0,
        histogram_taken_6(v).positive_deltas.len() == 0,
        histogram_taken_6(v).positive_counts.len() == 0,
        histogram_taken_6(v).custom_values.len() == 0,
{
    let prev = histogram_taken_5(v);
    let at = pos + histogram_upto_5(v).len();
    lemma_holds_split(s, pos, histogram_upto_5(v), optional_bytes::<UInt64>(6, whole_of(v.zero_count), is_whole(v.zero_count)));
    lemma_histogram_upto_5(v, s, pos, limit, budget);
    let put = |x: u64| HistogramView { zero_count: Some(Count::Int(x)), ..prev };
    assert forall|p: int| #[trigger]
        Histogram::with_field(prev, s, p, 6, UInt64::wire(), budget) == mapped(scalar_at::<UInt64>(s, p, UInt64::wire()), put) by {}
    lemma_optional_step::<Histogram, UInt64>(prev, put, s, at, limit, budget, 6, whole_of(v.zero_count), is_whole(v.zero_count));
}

/// The fields of a histogram up to field 7.
spec fn histogram_upto_7(v: HistogramView) -> Seq<u8> {
    histogram_upto_6(v) + optional_bytes::<Double>(7, fraction_of(v.zero_count), is_fraction(v.zero_count))
}

/// What is read of a histogram behind field 7.
spec fn histogram_taken_7(v: HistogramView) -> HistogramView {
    let prev = histogram_taken_6(v);
    if is_fraction(v.zero_count) { HistogramView { zero_count: Some(Count::Float(fraction_of(v.zero_count))), ..prev } } else { prev }
}

proof fn lemma_histogram_upto_7(v: HistogramView, s: Seq<u8>, pos: int, limit: int, budget: nat)
    requires
        holds_at(s, pos, histogram_upto_7(v)),
        pos + histogram_upto_7(v).len() <= limit,
        histogram_upto_7(v).len() <= u64::MAX,
        budget >= Histogram::depth(),
    ensures
        fields_from::<Histogram>(Histogram::blank(), s, pos, limit, budget) == fields_from::<Histogram>(
            histogram_taken_7(v),
            s,
            pos + histogram_upto_7(v).len(),
            limit,
            budget,
        ),
        histogram_taken_7(v).negative_spans.len() == 0,
        histogram_taken_7(v).negative_deltas.len() == 0,
        histogram_taken_7(v).negative_counts.len() == 0,
        histogram_taken_7(v).positive_spans.len() == 0,
        histogram_taken_7(v).positive_deltas.len() == 0,
        histogram_taken_7(v).positive_counts.len() == 0,
        histogram_taken_7(v).custom_values.len() == 0,
{
    let prev = histogram_taken_6(v);
    let at = pos + histogram_upto_6(v).len();
    lemma_holds_split(s, pos, histogram_upto_6(v), optional_bytes::<Double>(7, fraction_of(v.zero_count), is_fraction(v.zero_count)));
    lemma_histogram_upto_6(v, s, pos, limit, budget);
    let put = |x: u64| HistogramView { zero_count: Some(Count::Float(x)), ..prev };
    assert forall|p: int| #[trigger]
        Histogram::with_field(prev, s, p, 7, Double::wire(), budget) == mapped(scalar_at::<Double>(s, p, Double::wire()), put) by {}
    lemma_optional_step::<Histogram, Double>(prev, put, s, at, limit, budget, 7, fraction_of(v.zero_count), is_fraction(v.zero_count));
}

/// The fields of a histogram up to field 8.
spec fn histogram_upto_8(v: HistogramView) -> Seq<u8> {
    histogram_upto_7(v) + messages_bytes::<BucketSpan>(8, v.negative_spans)
}

/// What is read of a histogram behind field 8.
spec fn histogram_taken_8(v: HistogramView) -> HistogramView {
    let prev = histogram_taken_7(v);
    HistogramView { negative_spans: v.negative_spans, ..prev }
}

proof fn lemma_histogram_upto_8(v: HistogramView, s: Seq<u8>, pos: int, limit: int, budget: nat)
    requires
        holds_at(s, pos, histogram_upto_8(v)),
        pos + histogram_upto_8(v).len() <= limit,
        histogram_upto_8(v).len() <= u64::MAX,
        budget >= Histogram::depth(),
    ensures
        fields_from::<Histogram>(Histogram::blank(), s, pos, limit, budget) == fields_from::<Histogram>(
            histogram_taken_8(v),
            s,
            pos + histogram_upto_8(v).len(),
            limit,
            budget,
        ),
        histogram_taken_8(v).negative_deltas.len() == 0,
        histogram_taken_8(v).negative_counts.len() == 0,
        histogram_taken_8(v).positive_spans.len() == 0,
        histogram_taken_8(v).positive_deltas.len() == 0,
        histogram_taken_8(v).positive_counts.len() == 0,
        histogram_taken_8(v).custom_values.len() == 0,
{
    let prev = histogram_taken_7(v);
    let at = pos + histogram_upto_7(v).len();
    lemma_holds_split(s, pos, histogram_upto_7(v), messages_bytes::<BucketSpan>(8, v.negative_spans));
    lemma_histogram_upto_7(v, s, pos, limit, budget);
    let put = |l: Seq<BucketSpan>| HistogramView { negative_spans: l, ..prev };
    assert(prev.negative_spans =~= Seq::empty());
    assert forall|l: Seq<BucketSpan>, p: int| #[trigger]
        Histogram::with_field(put(l), s, p, 8, WireType::LengthDelimited, budget) == mapped(
            message_at::<BucketSpan>(BucketSpan::blank(), s, p, WireType::LengthDelimited, budget),
            |x: BucketSpan| put(l.push(x)),
        ) by {}
    assert(put(Seq::empty()) == prev);
    lemma_messages_step::<Histogram, BucketSpan>(Seq::empty(), put, s, at, limit, budget, 8, v.negative_spans);
    assert(Seq::<BucketSpan>::empty() + v.negative_spans =~= v.negative_spans);
}

/// The fields of a histogram up to field 9.
spec fn histogram_upto_9(v: HistogramView) -> Seq<u8> {
    histogram_upto_8(v) + repeated_bytes::<SInt64>(9, v.negative_deltas)
}

/// What is read of a histogram behind field 9.
spec fn histogram_taken_9(v: HistogramView) -> HistogramView {
    let prev = histogram_taken_8(v);
    HistogramView { negative_deltas: v.negative_deltas, ..prev }
}

proof fn lemma_histogram_upto_9(v: HistogramView, s: Seq<u8>, pos: int, limit: int, budget: nat)
    requires
        holds_at(s, pos, histogram_upto_9(v)),
        pos + histogram_upto_9(v).len() <= limit,
        histogram_upto_9(v).len() <= u64::MAX,
        budget >= Histogram::depth(),
    ensures
        fields_from::<Histogram>(Histogram::blank(), s, pos, limit, budget) == fields_from::<Histogram>(
            histogram_taken_9(v),
            s,
            pos + histogram_upto_9(v).len(),
            limit,
            budget,
        ),
        histogram_taken_9(v).negative_counts.len() == 0,
        histogram_taken_9(v).positive_spans.len() == 0,
        histogram_taken_9(v).positive_deltas.len() == 0,
        histogram_taken_9(v).positive_counts.len() == 0,
        histogram_taken_9(v).custom_values.len() == 0,
{
    let prev = histogram_taken_8(v);
    let at = pos + histogram_upto_8(v).len();
    lemma_holds_split(s, pos, histogram_upto_8(v), repeated_bytes::<SInt64>(9, v.negative_deltas));
    lemma_histogram_upto_8(v, s, pos, limit, budget);
    let put = |l: Seq<i64>| HistogramView { negative_deltas: l, ..prev };
    assert(prev.negative_deltas =~= Seq::empty());
    assert forall|p: int| #[trigger]
        Histogram::with_field(prev, s, p, 9, WireType::LengthDelimited, budget) == mapped(
            repeated_at::<SInt64>(Seq::empty(), s, p, WireType::LengthDelimited),
            put,
        ) by {}
    lemma_repeated_step::<Histogram, SInt64>(prev, Seq::empty(), put, s, at, limit, budget, 9, v.negative_deltas);
    assert(Seq::<i64>::empty() + v.negative_deltas =~= v.negative_deltas);
}

/// The fields of a histogram up to field 10.
spec fn histogram_upto_10(v: HistogramView) -> Seq<u8> {
    histogram_upto_9(v) + repeated_bytes::<Double>(10, v.negative_counts)
}

/// What is read of a histogram behind field 10.
spec fn histogram_taken_10(v: HistogramView) -> HistogramView {
    let prev = histogram_taken_9(v);
    HistogramView { negative_counts: v.negative_counts, ..prev }
}

proof fn lemma_histogram_upto_10(v: HistogramView, s: Seq<u8>, pos: int, limit: int, budget: nat)
    requires
        holds_at(s, pos, histogram_upto_10(v)),
        pos + histogram_upto_10(v).len() <= limit,
        histogram_upto_10(v).len() <= u64::MAX,
        budget >= Histogram::depth(),
    ensures
        fields_from::<Histogram>(Histogram::blank(), s, pos, limit, budget) == fields_from::<Histogram>(
            histogram_taken_10(v),
            s,
            pos + histogram_upto_10(v).len(),
            limit,
            budget,
        ),
        histogram_taken_10(v).positive_spans.len() == 0,
        histogram_taken_10(v).positive_deltas.len() == 0,
        histogram_taken_10(v).positive_counts.len() == 0,
        histogram_taken_10(v).custom_values.len() == 0,
{
    let prev = histogram_taken_9(v);
    let at = pos + histogram_upto_9(v).len();
    lemma_holds_split(s, pos, histogram_upto_9(v), repeated_bytes::<Double>(10, v.negative_counts));
    lemma_histogram_upto_9(v, s, pos, limit, budget);
    let put = |l: Seq<u64>| HistogramView { negative_counts: l, ..prev };
    assert(prev.negative_counts =~= Seq::empty());
    assert forall|p: int| #[trigger]
        Histogram::with_field(prev, s, p, 10, WireType::LengthDelimited, budget) == mapped(
            repeated_at::<Double>(Seq::empty(), s, p, WireType::LengthDelimited),
            put,
        ) by {}
    lemma_repeated_step::<Histogram, Double>(prev, Seq::empty(), put, s, at, limit, budget, 10, v.negative_counts);
    assert(Seq::<u64>::empty() + v.negative_counts =~= v.negative_counts);
}

/// The fields of a histogram up to field 11.
spec fn histogram_upto_11(v: HistogramView) -> Seq<u8> {
    histogram_upto_10(v) + messages_bytes::<BucketSpan>(11, v.positive_spans)
}

/// What is read of a histogram behind field 11.
spec fn histogram_taken_11(v: HistogramView) -> HistogramView {
    let prev = histogram_taken_10(v);
    HistogramView { positive_spans: v.positive_spans, ..prev }
}

proof fn lemma_histogram_upto_11(v: HistogramView, s: Seq<u8>, pos: int, limit: int, budget: nat)
    requires
        holds_at(s, pos, histogram_upto_11(v)),
        pos + histogram_upto_11(v).len() <= limit,
        histogram_upto_11(v).len() <= u64::MAX,
        budget >= Histogram::depth(),
    ensures
        fields_from::<Histogram>(Histogram::blank(), s, pos, limit, budget) == fields_from::<Histogram>(
            histogram_taken_11(v),
            s,
            pos + histogram_upto_11(v).len(),
            limit,
            budget,
        ),
        histogram_taken_11(v).positive_deltas.len() == 0,
        histogram_taken_11(v).positive_counts.len() == 0,
        histogram_taken_11(v).custom_values.len() == 0,
{
    let prev = histogram_taken_10(v);
    let at = pos + histogram_upto_10(v).len();
    lemma_holds_split(s, pos, histogram_upto_10(v), messages_bytes::<BucketSpan>(11, v.positive_spans));
    lemma_histogram_upto_10(v, s, pos, limit, budget);
    let put = |l: Seq<BucketSpan>| HistogramView { positive_spans: l, ..prev };
    assert(prev.positive_spans =~= Seq::empty());
    assert forall|l: Seq<BucketSpan>, p: int| #[trigger]
        Histogram::with_field(put(l), s, p, 11, WireType::LengthDelimited, budget) == mapped(
            message_at::<BucketSpan>(BucketSpan::blank(), s, p, WireType::LengthDelimited, budget),
            |x: BucketSpan| put(l.push(x)),
        ) by {}
    assert(put(Seq::empty()) == prev);
    lemma_messages_step::<Histogram, BucketSpan>(Seq::empty(), put, s, at, limit, budget, 11, v.positive_spans);
    assert(Seq::<BucketSpan>::empty() + v.positive_spans =~= v.positive_spans);
}

/// The fields of a histogram up to field 12.
spec fn histogram_upto_12(v: HistogramView) -> Seq<u8> {
    histogram_upto_11(v) + repeated_bytes::<SInt64>(12, v.positive_deltas)
}

/// What is read of a histogram behind field 12.
spec fn histogram_taken_12(v: HistogramView) -> HistogramView {
    let prev = histogram_taken_11(v);
    HistogramView { positive_deltas: v.positive_deltas, ..prev }
}

proof fn lemma_histogram_upto_12(v: HistogramView, s: Seq<u8>, pos: int, limit: int, budget: nat)
    requires
        holds_at(s, pos, histogram_upto_12(v)),
        pos + histogram_upto_12(v).len() <= limit,
        histogram_upto_12(v).len() <= u64::MAX,
        budget >= Histogram::depth(),
    ensures
        fields_from::<Histogram>(Histogram::blank(), s, pos, limit, budget) == fields_from::<Histogram>(
            histogram_taken_12(v),
            s,
            pos + histogram_upto_12(v).len(),
            limit,
            budget,
        ),
        histogram_taken_12(v).positive_counts.len() == 0,
        histogram_taken_12(v).custom_values.len() == 0,
{
    let prev = histogram_taken_11(v);
    let at = pos + histogram_upto_11(v).len();
    lemma_holds_split(s, pos, histogram_upto_11(v), repeated_bytes::<SInt64>(12, v.positive_deltas));
    lemma_histogram_upto_11(v, s, pos, limit, budget);
    let put = |l: Seq<i64>| HistogramView { positive_deltas: l, ..prev };
    assert(prev.positive_deltas =~= Seq::empty());
    assert forall|p: int| #[trigger]
        Histogram::with_field(prev, s, p, 12, WireType::LengthDelimited, budget) == mapped(
            repeated_at::<SInt64>(Seq::empty(), s, p, WireType::LengthDelimited),
            put,
        ) by {}
    lemma_repeated_step::<Histogram, SInt64>(prev, Seq::empty(), put, s, at, limit, budget, 12, v.positive_deltas);
    assert(Seq::<i64>::empty() + v.positive_deltas =~= v.positive_deltas);
}

/// The fields of a histogram up to field 13.
spec fn histogram_upto_13(v: HistogramView) -> Seq<u8> {
    histogram_upto_12(v) + repeated_bytes::<Double>(13, v.positive_counts)
}

/// What is read of a histogram behind field 13.
spec fn histogram_taken_13(v: HistogramView) -> HistogramView {
    let prev = histogram_taken_12(v);
    HistogramView { positive_counts: v.positive_counts, ..prev }
}

proof fn lemma_histogram_upto_13(v: HistogramView, s: Seq<u8>, pos: int, limit: int, budget: nat)
    requires
        holds_at(s, pos, histogram_upto_13(v)),
        pos + histogram_upto_13(v).len() <= limit,
        histogram_upto_13(v).len() <= u64::MAX,
        budget >= Histogram::depth(),
    ensures
        fields_from::<Histogram>(Histogram::blank(), s, pos, limit, budget) == fields_from::<Histogram>(
            histogram_taken_13(v),
            s,
            pos + histogram_upto_13(v).len(),
            limit,
            budget,
        ),
        histogram_taken_13(v).custom_values.len() == 0,
{
    let prev = histogram_taken_12(v);
    let at = pos + histogram_upto_12(v).len();
    lemma_holds_split(s, pos, histogram_upto_12(v), repeated_bytes::<Double>(13, v.positive_counts));
    lemma_histogram_upto_12(v, s, pos, limit, budget);
    let put = |l: Seq<u64>| HistogramView { positive_counts: l, ..prev };
    assert(prev.positive_counts =~= Seq::empty());
    assert forall|p: int| #[trigger]
        Histogram::with_field(prev, s, p, 13, WireType::LengthDelimited, budget) == mapped(
            repeated_at::<Double>(Seq::empty(), s, p, WireType::LengthDelimited),
            put,
        ) by {}
    lemma_repeated_step::<Histogram, Double>(prev, Seq::empty(), put, s, at, limit, budget, 13, v.positive_counts);
    assert(Seq::<u64>::empty() + v.positive_counts =~= v.positive_counts);
}

/// The fields of a histogram up to field 14.
spec fn histogram_upto_14(v: HistogramView) -> Seq<u8> {
    histogram_upto_13(v) + optional_bytes::<Int32>(14, v.reset_hint, v.reset_hint != 0)
}

/// What is read of a histogram behind field 14.
spec fn histogram_taken_14(v: HistogramView) -> HistogramView {
    let prev = histogram_taken_13(v);
    if v.reset_hint != 0 { HistogramView { reset_hint: v.reset_hint, ..prev } } else { prev }
}

proof fn lemma_histogram_upto_14(v: HistogramView, s: Seq<u8>, pos: int, limit: int, budget: nat)
    requires
        holds_at(s, pos, histogram_upto_14(v)),
        pos + histogram_upto_14(v).len() <= limit,
        histogram_upto_14(v).len() <= u64::MAX,
        budget >= Histogram::depth(),
    ensures
        fields_from::<Histogram>(Histogram::blank(), s, pos, limit, budget) == fields_from::<Histogram>(
            histogram_taken_14(v),
            s,
            pos + histogram_upto_14(v).len(),
            limit,
            budget,
        ),
        histogram_taken_14(v).custom_values.len() == 0,
{
    let prev = histogram_taken_13(v);
    let at = pos + histogram_upto_13(v).len();
    lemma_holds_split(s, pos, histogram_upto_13(v), optional_bytes::<Int32>(14, v.reset_hint, v.reset_hint != 0));
    lemma_histogram_upto_13(v, s, pos, limit, budget);
    let put = |x: i32| HistogramView { reset_hint: x, ..prev };
    assert forall|p: int| #[trigger]
        Histogram::with_field(prev, s, p, 14, Int32::wire(), budget) == mapped(scalar_at::<Int32>(s, p, Int32::wire()), put) by {}
    lemma_optional_step::<Histogram, Int32>(prev, put, s, at, limit, budget, 14, v.reset_hint, v.reset_hint != 0);
}

/// The fields of a histogram up to field 15.
spec fn histogram_upto_15(v: HistogramView) -> Seq<u8> {
    histogram_upto_14(v) + optional_bytes::<Int64>(15, v.timestamp, v.timestamp != 0)
}

/// What is read of a histogram behind field 15.
spec fn histogram_taken_15(v: HistogramView) -> HistogramView {
    let prev = histogram_taken_14(v);
    if v.timestamp != 0 { HistogramView { timestamp: v.timestamp, ..prev } } else { prev }
}

proof fn lemma_histogram_upto_15(v: HistogramView, s: Seq<u8>, pos: int, limit: int, budget: nat)
    requires
        holds_at(s, pos, histogram_upto_15(v)),
        pos + histogram_upto_15(v).len() <= limit,
        histogram_upto_15(v).len() <= u64::MAX,
        budget >= Histogram::depth(),
    ensures
        fields_from::<Histogram>(Histogram::blank(), s, pos, limit, budget) == fields_from::<Histogram>(
            histogram_taken_15(v),
            s,
            pos + histogram_upto_15(v).len(),
            limit,
            budget,
        ),
        histogram_taken_15(v).custom_values.len() == 0,
{
    let prev = histogram_taken_14(v);
    let at = pos + histogram_upto_14(v).len();
    lemma_holds_split(s, pos, histogram_upto_14(v), optional_bytes::<Int64>(15, v.timestamp, v.timestamp != 0));
    lemma_histogram_upto_14(v, s, pos, limit, budget);
    let put = |x: i64| HistogramView { timestamp: x, ..prev };
    assert forall|p: int| #[trigger]
        Histogram::with_field(prev, s, p, 15, Int64::wire(), budget) == mapped(scalar_at::<Int64>(s, p, Int64::wire()), put) by {}
    lemma_optional_step::<Histogram, Int64>(prev, put, s, at, limit, budget, 15, v.timestamp, v.timestamp != 0);
}

/// The fields of a histogram up to field 16.
spec fn histogram_upto_16(v: HistogramView) -> Seq<u8> {
    histogram_upto_15(v) + repeated_bytes::<Double>(16, v.custom_values)
}

/// What is read of a histogram behind field 16.
spec fn histogram_taken_16(v: HistogramView) -> HistogramView {
    let prev = histogram_taken_15(v);
    HistogramView { custom_values: v.custom_values, ..prev }
}

proof fn lemma_histogram_upto_16(v: HistogramView, s: Seq<u8>, pos: int, limit: int, budget: nat)
    requires
        holds_at(s, pos, histogram_upto_16(v)),
        pos + histogram_upto_16(v).len() <= limit,
        histogram_upto_16(v).len() <= u64::MAX,
        budget >= Histogram::depth(),
    ensures
        fields_from::<Histogram>(Histogram::blank(), s, pos, limit, budget) == fields_from::<Histogram>(
            histogram_taken_16(v),
            s,
            pos + histogram_upto_16(v).len(),
            limit,
            budget,
        ),
{
    let prev = histogram_taken_15(v);
    let at = pos + histogram_upto_15(v).len();
    lemma_holds_split(s, pos, histogram_upto_15(v), repeated_bytes::<Double>(16, v.custom_values));
    lemma_histogram_upto_15(v, s, pos, limit, budget);
    let put = |l: Seq<u64>| HistogramView { custom_values: l, ..prev };
    assert(prev.custom_values =~= Seq::empty());
    assert forall|p: int| #[trigger]
        Histogram::with_field(prev, s, p, 16, WireType::LengthDelimited, budget) == mapped(
            repeated_at::<Double>(Seq::empty(), s, p, WireType::LengthDelimited),
            put,
        ) by {}
    lemma_repeated_step::<Histogram, Double>(prev, Seq::empty(), put, s, at, limit, budget, 16, v.custom_values);
    assert(Seq::<u64>::empty() + v.custom_values =~= v.custom_values);
}

/// Appends the fields 1 to 4 of a histogram behind those before them.
fn write_histogram_fields_1_to_4(m: &Histogram, out: &mut Vec<u8>, Ghost(base): Ghost<Seq<u8>>)
    requires
        old(out)@ == base,
    ensures
        final(out)@ == base + histogram_upto_4(m@),
{
    let (number, present) = whole_part(&m.count);
    write_optional::<UInt64>(out, 1, &number, present);
    assert(out@ =~= base + histogram_upto_1(m@));
    let (number, present) = fraction_part(&m.count);
    write_optional::<Double>(out, 2, &number, present);
    assert(out@ =~= base + histogram_upto_2(m@));
    write_optional::<Double>(out, 3, &m.sum, m.sum != 0);
    assert(out@ =~= base + histogram_upto_3(m@));
    write_optional::<SInt32>(out, 4, &m.schema, m.schema != 0);
    assert(out@ =~= base + histogram_upto_4(m@));
}

/// Appends the fields 5 to 8 of a histogram behind those before them.
fn write_histogram_fields_5_to_8(m: &Histogram, out: &mut Vec<u8>, Ghost(base): Ghost<Seq<u8>>)
    requires
        old(out)@ == base + histogram_upto_4(m@),
    ensures
        final(out)@ == base + histogram_upto_8(m@),
{
    write_optional::<Double>(out, 5, &m.zero_threshold, m.zero_threshold != 0);
    assert(out@ =~= base + histogram_upto_5(m@));
    let (number, present) = whole_part(&m.zero_count);
    write_optional::<UInt64>(out, 6, &number, present);
    assert(out@ =~= base + histogram_upto_6(m@));
    let (number, present) = fraction_part(&m.zero_count);
    write_optional::<Double>(out, 7, &number, present);
    assert(out@ =~= base + histogram_upto_7(m@));
    write_messages::<BucketSpan>(out, 8, &m.negative_spans);
    assert(views_of(m.negative_spans@) =~= m@.negative_spans);
    assert(out@ =~= base + histogram_upto_8(m@));
}

/// Appends the fields 9 to 12 of a histogram behind those before them.
fn write_histogram_fields_9_to_12(m: &Histogram, out: &mut Vec<u8>, Ghost(base): Ghost<Seq<u8>>)
    requires
        old(out)@ == base + histogram_upto_8(m@),
    ensures
        final(out)@ == base + histogram_upto_12(m@),
{
    write_repeated::<SInt64>(out, 9, &m.negative_deltas);
    assert(out@ =~= base + histogram_upto_9(m@));
    write_repeated::<Double>(out, 10, &m.negative_counts);
    assert(out@ =~= base + histogram_upto_10(m@));
    write_messages::<BucketSpan>(out, 11, &m.positive_spans);
    assert(views_of(m.positive_spans@) =~= m@.positive_spans);
    assert(out@ =~= base + histogram_upto_11(m@));
    write_repeated::<SInt64>(out, 12, &m.positive_deltas);
    assert(out@ =~= base + histogram_upto_12(m@));
}

/// Appends the fields 13 to 16 of a histogram behind those before them.
fn write_histogram_fields_13_to_16(m: &Histogram, out: &mut Vec<u8>, Ghost(base): Ghost<Seq<u8>>)
    requires
        old(out)@ == base + histogram_upto_12(m@),
    ensures
        final(out)@ == base + histogram_upto_16(m@),
{
    write_repeated::<Double>(out, 13, &m.positive_counts);
    assert(out@ =~= base + histogram_upto_13(m@));
    write_optional::<Int32>(out, 14, &m.reset_hint, m.reset_hint != 0);
    assert(out@ =~= base + histogram_upto_14(m@));
    write_optional::<Int64>(out, 15, &m.timestamp, m.timestamp != 0);
    assert(out@ =~= base + histogram_upto_15(m@));
    write_repeated::<Double>(out, 16, &m.custom_values);
    assert(out@ =~= base + histogram_upto_16(m@));
}

impl MessageEncoding for Histogram {
    /// A histogram: its sixteen fields in the order of their numbers, a
    /// count under the number of its kind.
    open spec fn encoding(v: HistogramView) -> Seq<u8> {
        optional_bytes::<UInt64>(1, whole_of(v.count), is_whole(v.count))
            + optional_bytes::<Double>(2, fraction_of(v.count), is_fraction(v.count))
            + optional_bytes::<Double>(3, v.sum, v.sum != 0)
            + optional_bytes::<SInt32>(4, v.schema, v.schema != 0)
            + optional_bytes::<Double>(5, v.zero_threshold, v.zero_threshold != 0)
            + optional_bytes::<UInt64>(6, whole_of(v.zero_count), is_whole(v.zero_count))
            + optional_bytes::<Double>(7, fraction_of(v.zero_count), is_fraction(v.zero_count))
            + messages_bytes::<BucketSpan>(8, v.negative_spans)
            + repeated_bytes::<SInt64>(9, v.negative_deltas)
            + repeated_bytes::<Double>(10, v.negative_counts)
            + messages_bytes::<BucketSpan>(11, v.positive_spans)
            + repeated_bytes::<SInt64>(12, v.positive_deltas)
            + repeated_bytes::<Double>(13, v.positive_counts)
            + optional_bytes::<Int32>(14, v.reset_hint, v.reset_hint != 0)
            + optional_bytes::<Int64>(15, v.timestamp, v.timestamp != 0)
            + repeated_bytes::<Double>(16, v.custom_values)
    }

    open spec fn depth() -> nat {
        1
    }

    proof fn lemma_round_trip(v: HistogramView, s: Seq<u8>, pos: int, budget: nat) {
        assert(Histogram::encoding(v) == histogram_upto_16(v));
        lemma_histogram_upto_16(v, s, pos, pos + Histogram::encoding(v).len(), budget);
        assert(histogram_taken_16(v) == v);
    }

    fn encode_into(&self, out: &mut Vec<u8>) {
        let ghost base = out@;
        write_histogram_fields_1_to_4(self, out, Ghost(base));
        write_histogram_fields_5_to_8(self, out, Ghost(base));
        write_histogram_fields_9_to_12(self, out, Ghost(base));
        write_histogram_fields_13_to_16(self, out, Ghost(base));
    }
}

/// The fields of a series up to field 1.
spec fn series_upto_1(v: TimeSeriesView) -> Seq<u8> {
    repeated_bytes::<UInt32>(1, v.labels_refs)
}

/// What is read of a series behind field 1.
spec fn series_taken_1(v: TimeSeriesView) -> TimeSeriesView {
    let prev = TimeSeries::blank();
    TimeSeriesView { labels_refs: v.labels_refs, ..prev }
}

proof fn lemma_series_upto_1(v: TimeSeriesView, s: Seq<u8>, pos: int, limit: int, budget: nat)
    requires
        holds_at(s, pos, series_upto_1(v)),
        pos + series_upto_1(v).len() <= limit,
        series_upto_1(v).len() <= u64::MAX,
        budget >= TimeSeries::depth(),
    ensures
        fields_from::<TimeSeries>(TimeSeries::blank(), s, pos, limit, budget) == fields_from::<TimeSeries>(
            series_taken_1(v),
            s,
            pos + series_upto_1(v).len(),
            limit,
            budget,
        ),
        series_taken_1(v).samples.len() == 0,
        series_taken_1(v).histograms.len() == 0,
        series_taken_1(v).exemplars.len() == 0,
        series_taken_1(v).metadata is None,
{
    let prev = TimeSeries::blank();
    let at = pos;
    let put = |l: Seq<u32>| TimeSeriesView { labels_refs: l, ..prev };
    assert(prev.labels_refs =~= Seq::empty());
    assert forall|p: int| #[trigger]
        TimeSeries::with_field(prev, s, p, 1, WireType::LengthDelimited, budget) == mapped(
            repeated_at::<UInt32>(Seq::empty(), s, p, WireType::LengthDelimited),
            put,
        ) by {}
    lemma_repeated_step::<TimeSeries, UInt32>(prev, Seq::empty(), put, s, at, limit, budget, 1, v.labels_refs);
    assert(Seq::<u32>::empty() + v.labels_refs =~= v.labels_refs);
}

/// The fields of a series up to field 2.
spec fn series_upto_2(v: TimeSeriesView) -> Seq<u8> {
    series_upto_1(v) + messages_bytes::<Sample>(2, v.samples)
}

/// What is read of a series behind field 2.
spec fn series_taken_2(v: TimeSeriesView) -> TimeSeriesView {
    let prev = series_taken_1(v);
    TimeSeriesView { samples: v.samples, ..prev }
}

proof fn lemma_series_upto_2(v: TimeSeriesView, s: Seq<u8>, pos: int, limit: int, budget: nat)
    requires
        holds_at(s, pos, series_upto_2(v)),
        pos + series_upto_2(v).len() <= limit,
        series_upto_2(v).len() <= u64::MAX,
        budget >= TimeSeries::depth(),
    ensures
        fields_from::<TimeSeries>(TimeSeries::blank(), s, pos, limit, budget) == fields_from::<TimeSeries>(
            series_taken_2(v),
            s,
            pos + series_upto_2(v).len(),
            limit,
            budget,
        ),
        series_taken_2(v).histograms.len() == 0,
        series_taken_2(v).exemplars.len() == 0,
        series_taken_2(v).metadata is None,
{
    let prev = series_taken_1(v);
    let at = pos + series_upto_1(v).len();
    lemma_holds_split(s, pos, series_upto_1(v), messages_bytes::<Sample>(2, v.samples));
    lemma_series_upto_1(v, s, pos, limit, budget);
    let put = |l: Seq<Sample>| TimeSeriesView { samples: l, ..prev };
    assert(prev.samples =~= Seq::empty());
    assert forall|l: Seq<Sample>, p: int| #[trigger]
        TimeSeries::with_field(put(l), s, p, 2, WireType::LengthDelimited, budget) == mapped(
            message_at::<Sample>(Sample::blank(), s, p, WireType::LengthDelimited, budget),
            |x: Sample| put(l.push(x)),
        ) by {}
    assert(put(Seq::empty()) == prev);
    lemma_messages_step::<TimeSeries, Sample>(Seq::empty(), put, s, at, limit, budget, 2, v.samples);
    assert(Seq::<Sample>::empty() + v.samples =~= v.samples);
}

/// The fields of a series up to field 3.
spec fn series_upto_3(v: TimeSeriesView) -> Seq<u8> {
    series_upto_2(v) + messages_bytes::<Histogram>(3, v.histograms)
}

/// What is read of a series behind field 3.
spec fn series_taken_3(v: TimeSeriesView) -> TimeSeriesView {
    let prev = series_taken_2(v);
    TimeSeriesView { histograms: v.histograms, ..prev }
}

proof fn lemma_series_upto_3(v: TimeSeriesView, s: Seq<u8>, pos: int, limit: int, budget: nat)
    requires
        holds_at(s, pos, series_upto_3(v)),
        pos + series_upto_3(v).len() <= limit,
        series_upto_3(v).len() <= u64::MAX,
        budget >= TimeSeries::depth(),
    ensures
        fields_from::<TimeSeries>(TimeSeries::blank(), s, pos, limit, budget) == fields_from::<TimeSeries>(
            series_taken_3(v),
            s,
            pos + series_upto_3(v).len(),
            limit,
            budget,
        ),
        series_taken_3(v).exemplars.len() == 0,
        series_taken_3(v).metadata is None,
{
    let prev = series_taken_2(v);
    let at = pos + series_upto_2(v).len();
    lemma_holds_split(s, pos, series_upto_2(v), messages_bytes::<Histogram>(3, v.histograms));
    lemma_series_upto_2(v, s, pos, limit, budget);
    let put = |l: Seq<HistogramView>| TimeSeriesView { histograms: l, ..prev };
    assert(prev.histograms =~= Seq::empty());
    assert forall|l: Seq<HistogramView>, p: int| #[trigger]
        TimeSeries::with_field(put(l), s, p, 3, WireType::LengthDelimited, budget) == mapped(
            message_at::<Histogram>(Histogram::blank(), s, p, WireType::LengthDelimited, budget),
            |x: HistogramView| put(l.push(x)),
        ) by {}
    assert(put(Seq::empty()) == prev);
    lemma_messages_step::<TimeSeries, Histogram>(Seq::empty(), put, s, at, limit, budget, 3, v.histograms);
    assert(Seq::<HistogramView>::empty() + v.histograms =~= v.histograms);
}

/// The fields of a series up to field 4.
spec fn series_upto_4(v: TimeSeriesView) -> Seq<u8> {
    series_upto_3(v) + messages_bytes::<Exemplar>(4, v.exemplars)
}

/// What is read of a series behind field 4.
spec fn series_taken_4(v: TimeSeriesView) -> TimeSeriesView {
    let prev = series_taken_3(v);
    TimeSeriesView { exemplars: v.exemplars, ..prev }
}

proof fn lemma_series_upto_4(v: TimeSeriesView, s: Seq<u8>, pos: int, limit: int, budget: nat)
    requires
        holds_at(s, pos, series_upto_4(v)),
        pos + series_upto_4(v).len() <= limit,
        series_upto_4(v).len() <= u64::MAX,
        budget >= TimeSeries::depth(),
    ensures
        fields_from::<TimeSeries>(TimeSeries::blank(), s, pos, limit, budget) == fields_from::<TimeSeries>(
            series_taken_4(v),
            s,
            pos + series_upto_4(v).len(),
            limit,
            budget,
        ),
        series_taken_4(v).metadata is None,
{
    let prev = series_taken_3(v);
    let at = pos + series_upto_3(v).len();
    lemma_holds_split(s, pos, series_upto_3(v), messages_bytes::<Exemplar>(4, v.exemplars));
    lemma_series_upto_3(v, s, pos, limit, budget);
    let put = |l: Seq<ExemplarView>| TimeSeriesView { exemplars: l, ..prev };
    assert(prev.exemplars =~= Seq::empty());
    assert forall|l: Seq<ExemplarView>, p: int| #[trigger]
        TimeSeries::with_field(put(l), s, p, 4, WireType::LengthDelimited, budget) == mapped(
            message_at::<Exemplar>(Exemplar::blank(), s, p, WireType::LengthDelimited, budget),
            |x: ExemplarView| put(l.push(x)),
        ) by {}
    assert(put(Seq::empty()) == prev);
    lemma_messages_step::<TimeSeries, Exemplar>(Seq::empty(), put, s, at, limit, budget, 4, v.exemplars);
    assert(Seq::<ExemplarView>::empty() + v.exemplars =~= v.exemplars);
}

/// The fields of a series up to field 5.
spec fn series_upto_5(v: TimeSeriesView) -> Seq<u8> {
    series_upto_4(v) + optional_message_bytes::<Metadata>(5, v.metadata)
}

/// What is read of a series behind field 5.
spec fn series_taken_5(v: TimeSeriesView) -> TimeSeriesView {
    let prev = series_taken_4(v);
    match v.metadata { Some(x) => TimeSeriesView { metadata: Some(x), ..prev }, None => prev }
}

proof fn lemma_series_upto_5(v: TimeSeriesView, s: Seq<u8>, pos: int, limit: int, budget: nat)
    requires
        holds_at(s, pos, series_upto_5(v)),
        pos + series_upto_5(v).len() <= limit,
        series_upto_5(v).len() <= u64::MAX,
        budget >= TimeSeries::depth(),
    ensures
        fields_from::<TimeSeries>(TimeSeries::blank(), s, pos, limit, budget) == fields_from::<TimeSeries>(
            series_taken_5(v),
            s,
            pos + series_upto_5(v).len(),
            limit,
            budget,
        ),
{
    let prev = series_taken_4(v);
    let at = pos + series_upto_4(v).len();
    lemma_holds_split(s, pos, series_upto_4(v), optional_message_bytes::<Metadata>(5, v.metadata));
    lemma_series_upto_4(v, s, pos, limit, budget);
    let put = |x: Metadata| TimeSeriesView { metadata: Some(x), ..prev };
    assert forall|p: int| #[trigger]
        TimeSeries::with_field(prev, s, p, 5, WireType::LengthDelimited, budget) == mapped(
            message_at::<Metadata>(Metadata::blank(), s, p, WireType::LengthDelimited, budget),
            put,
        ) by {}
    lemma_optional_message_step::<TimeSeries, Metadata>(prev, put, s, at, limit, budget, 5, v.metadata);
}

/// The fields of a series up to field 6.
spec fn series_upto_6(v: TimeSeriesView) -> Seq<u8> {
    series_upto_5(v) + optional_bytes::<Int64>(6, v.created_timestamp, v.created_timestamp != 0)
}

/// What is read of a series behind field 6.
spec fn series_taken_6(v: TimeSeriesView) -> TimeSeriesView {
    let prev = series_taken_5(v);
    if v.created_timestamp != 0 { TimeSeriesView { created_timestamp: v.created_timestamp, ..prev } } else { prev }
}

proof fn lemma_series_upto_6(v: TimeSeriesView, s: Seq<u8>, pos: int, limit: int, budget: nat)
    requires
        holds_at(s, pos, series_upto_6(v)),
        pos + series_upto_6(v).len() <= limit,
        series_upto_6(v).len() <= u64::MAX,
        budget >= TimeSeries::depth(),
    ensures
        fields_from::<TimeSeries>(TimeSeries::blank(), s, pos, limit, budget) == fields_from::<TimeSeries>(
            series_taken_6(v),
            s,
            pos + series_upto_6(v).len(),
            limit,
            budget,
        ),
{
    let prev = series_taken_5(v);
    let at = pos + series_upto_5(v).len();
    lemma_holds_split(s, pos, series_upto_5(v), optional_bytes::<Int64>(6, v.created_timestamp, v.created_timestamp != 0));
    lemma_series_upto_5(v, s, pos, limit, budget);
    let put = |x: i64| TimeSeriesView { created_timestamp: x, ..prev };
    assert forall|p: int| #[trigger]
        TimeSeries::with_field(prev, s, p, 6, Int64::wire(), budget) == mapped(scalar_at::<Int64>(s, p, Int64::wire()), put) by {}
    lemma_optional_step::<TimeSeries, Int64>(prev, put, s, at, limit, budget, 6, v.created_timestamp, v.created_timestamp != 0);
}

impl MessageEncoding for TimeSeries {
    /// A series: label references, samples, histograms, exemplars,
    /// metadata where there is any, and the creation timestamp.
    open spec fn encoding(v: TimeSeriesView) -> Seq<u8> {
        repeated_bytes::<UInt32>(1, v.labels_refs)
            + messages_bytes::<Sample>(2, v.samples)
            + messages_bytes::<Histogram>(3, v.histograms)
            + messages_bytes::<Exemplar>(4, v.exemplars)
            + optional_message_bytes::<Metadata>(5, v.metadata)
            + optional_bytes::<Int64>(6, v.created_timestamp, v.created_timestamp != 0)
    }

    open spec fn depth() -> nat {
        2
    }

    proof fn lemma_round_trip(v: TimeSeriesView, s: Seq<u8>, pos: int, budget: nat) {
        assert(TimeSeries::encoding(v) == series_upto_6(v));
        lemma_series_upto_6(v, s, pos, pos + TimeSeries::encoding(v).len(), budget);
        assert(series_taken_6(v) == v);
    }

    fn encode_into(&self, out: &mut Vec<u8>) {
        write_repeated::<UInt32>(out, 1, &self.labels_refs);
        assert(out@ =~= old(out)@ + series_upto_1(self@));
        write_messages::<Sample>(out, 2, &self.samples);
        assert(views_of(self.samples@) =~= self@.samples);
        assert(out@ =~= old(out)@ + series_upto_2(self@));
        write_messages::<Histogram>(out, 3, &self.histograms);
        assert(views_of(self.histograms@) =~= self@.histograms);
        assert(out@ =~= old(out)@ + series_upto_3(self@));
        write_messages::<Exemplar>(out, 4, &self.exemplars);
        assert(views_of(self.exemplars@) =~= self@.exemplars);
        assert(out@ =~= old(out)@ + series_upto_4(self@));
        write_optional_message::<Metadata>(out, 5, &self.metadata);
        assert(out@ =~= old(out)@ + series_upto_5(self@));
        write_optional::<Int64>(out, 6, &self.created_timestamp, self.created_timestamp != 0);
        assert(out@ =~= old(out)@ + series_upto_6(self@));
    }
}

/// The fields of a request up to field 4.
spec fn request_upto_4(v: RemoteWriteRequestView) -> Seq<u8> {
    strings_bytes(4, v.symbols)
}

/// What is read of a request behind field 4.
spec fn request_taken_4(v: RemoteWriteRequestView) -> RemoteWriteRequestView {
    let prev = RemoteWriteRequest::blank();
    RemoteWriteRequestView { symbols: v.symbols, ..prev }
}

proof fn lemma_request_upto_4(v: RemoteWriteRequestView, s: Seq<u8>, pos: int, limit: int, budget: nat)
    requires
        holds_at(s, pos, request_upto_4(v)),
        pos + request_upto_4(v).len() <= limit,
        request_upto_4(v).len() <= u64::MAX,
        budget >= RemoteWriteRequest::depth(),
    ensures
        fields_from::<RemoteWriteRequest>(RemoteWriteRequest::blank(), s, pos, limit, budget) == fields_from::<RemoteWriteRequest>(
            request_taken_4(v),
            s,
            pos + request_upto_4(v).len(),
            limit,
            budget,
        ),
        request_taken_4(v).timeseries.len() == 0,
{
    let prev = RemoteWriteRequest::blank();
    let at = pos;
    let put = |l: Seq<Seq<char>>| RemoteWriteRequestView { symbols: l, ..prev };
    assert(prev.symbols =~= Seq::empty());
    assert forall|l: Seq<Seq<char>>, p: int| #[trigger]
        RemoteWriteRequest::with_field(put(l), s, p, 4, WireType::LengthDelimited, budget) == mapped(
            string_at(s, p, WireType::LengthDelimited),
            |x: Seq<char>| put(l.push(x)),
        ) by {}
    assert(put(Seq::empty()) == prev);
    lemma_strings_step::<RemoteWriteRequest>(Seq::empty(), put, s, at, limit, budget, 4, v.symbols);
    assert(Seq::<Seq<char>>::empty() + v.symbols =~= v.symbols);
}

/// The fields of a request up to field 5.
spec fn request_upto_5(v: RemoteWriteRequestView) -> Seq<u8> {
    request_upto_4(v) + messages_bytes::<TimeSeries>(5, v.timeseries)
}

/// What is read of a request behind field 5.
spec fn request_taken_5(v: RemoteWriteRequestView) -> RemoteWriteRequestView {
    let prev = request_taken_4(v);
    RemoteWriteRequestView { timeseries: v.timeseries, ..prev }
}

proof fn lemma_request_upto_5(v: RemoteWriteRequestView, s: Seq<u8>, pos: int, limit: int, budget: nat)
    requires
        holds_at(s, pos, request_upto_5(v)),
        pos + request_upto_5(v).len() <= limit,
        request_upto_5(v).len() <= u64::MAX,
        budget >= RemoteWriteRequest::depth(),
    ensures
        fields_from::<RemoteWriteRequest>(RemoteWriteRequest::blank(), s, pos, limit, budget) == fields_from::<RemoteWriteRequest>(
            request_taken_5(v),
            s,
            pos + request_upto_5(v).len(),
            limit,
            budget,
        ),
{
    let prev = request_taken_4(v);
    let at = pos + request_upto_4(v).len();
    lemma_holds_split(s, pos, request_upto_4(v), messages_bytes::<TimeSeries>(5, v.timeseries));
    lemma_request_upto_4(v, s, pos, limit, budget);
    let put = |l: Seq<TimeSeriesView>| RemoteWriteRequestView { timeseries: l, ..prev };
    assert(prev.timeseries =~= Seq::empty());
    assert forall|l: Seq<TimeSeriesView>, p: int| #[trigger]
        RemoteWriteRequest::with_field(put(l), s, p, 5, WireType::LengthDelimited, budget) == mapped(
            message_at::<TimeSeries>(TimeSeries::blank(), s, p, WireType::LengthDelimited, budget),
            |x: TimeSeriesView| put(l.push(x)),
        ) by {}
    assert(put(Seq::empty()) == prev);
    lemma_messages_step::<RemoteWriteRequest, TimeSeries>(Seq::empty(), put, s, at, limit, budget, 5, v.timeseries);
    assert(Seq::<TimeSeriesView>::empty() + v.timeseries =~= v.timeseries);
}

impl MessageEncoding for RemoteWriteRequest {
    /// A request: its symbols, then its series.
    open spec fn encoding(v: RemoteWriteRequestView) -> Seq<u8> {
        strings_bytes(4, v.symbols)
            + messages_bytes::<TimeSeries>(5, v.timeseries)
    }

    open spec fn depth() -> nat {
        3
    }

    proof fn lemma_round_trip(v: RemoteWriteRequestView, s: Seq<u8>, pos: int, budget: nat) {
        assert(RemoteWriteRequest::encoding(v) == request_upto_5(v));
        lemma_request_upto_5(v, s, pos, pos + RemoteWriteRequest::encoding(v).len(), budget);
        assert(request_taken_5(v) == v);
    }

    fn encode_into(&self, out: &mut Vec<u8>) {
        write_strings(out, 4, &self.symbols);
        assert(out@ =~= old(out)@ + request_upto_4(self@));
        write_messages::<TimeSeries>(out, 5, &self.timeseries);
        assert(views_of(self.timeseries@) =~= self@.timeseries);
        assert(out@ =~= old(out)@ + request_upto_5(self@));
    }
}

/// Writes a request in the wire format.
pub fn encode_request(request: &RemoteWriteRequest) -> (bytes: Vec<u8>)
    ensures
        bytes@ == RemoteWriteRequest::encoding(request@),
{
    let mut bytes: Vec<u8> = Vec::new();
    request.encode_into(&mut bytes);
    assert(bytes@ =~= RemoteWriteRequest::encoding(request@));
    bytes
}

/// Every request is read back from its encoding as it was written.
pub proof fn law_decoding_inverts_encoding(request: RemoteWriteRequestView)
    requires
        RemoteWriteRequest::encoding(request).len() <= usize::MAX,
    ensures
        request_of(RemoteWriteRequest::encoding(request)) == Ok::<RemoteWriteRequestView, DecodeError>(request),
{
    let bytes = RemoteWriteRequest::encoding(request);
    assert(holds_at(bytes, 0, bytes)) by {
        reveal(holds_at);
    }
    RemoteWriteRequest::lemma_round_trip(request, bytes, 0, RECURSION_LIMIT as nat);
}

} // verus!

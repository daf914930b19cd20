//! Per-request totals of the entries carried by a decoded batch.

use crate::message::WireMessage;
use crate::remote_write::{
    exemplar_total, histogram_total, sample_total, RemoteWriteRequest, RemoteWriteRequestView,
    TimeSeriesView,
};
use vstd::prelude::*;

verus! {

/// Totals of the entries of one request, by kind.
#[derive(Clone, Copy, Debug, PartialEq, Eq, Structural)]
pub struct IngestionSummary {
    pub samples: i64,
    pub histograms: i64,
    pub exemplars: i64,
}

/// The totals of a request, over all its series in their order.
pub open spec fn summary_of(request: RemoteWriteRequestView) -> IngestionSummary {
    IngestionSummary {
        samples: sample_total(request.timeseries) as i64,
        histograms: histogram_total(request.timeseries) as i64,
        exemplars: exemplar_total(request.timeseries) as i64,
    }
}

/// That each total of the request fits a signed 64-bit counter.
pub open spec fn countable(request: RemoteWriteRequestView) -> bool {
    RemoteWriteRequest::entry_count(request) <= i64::MAX
}

proof fn lemma_totals_take(series: Seq<TimeSeriesView>, n: int)
    requires
        0 <= n < series.len(),
    ensures
        sample_total(series.take(n + 1)) == sample_total(series.take(n)) + series[n].samples.len(),
        histogram_total(series.take(n + 1)) == histogram_total(series.take(n)) + series[n].histograms.len(),
        exemplar_total(series.take(n + 1)) == exemplar_total(series.take(n)) + series[n].exemplars.len(),
{
    assert(series.take(n + 1).drop_last() =~= series.take(n));
}

proof fn lemma_totals_grow(series: Seq<TimeSeriesView>, n: int)
    requires
        0 <= n <= series.len(),
    ensures
        sample_total(series.take(n)) <= sample_total(series),
        histogram_total(series.take(n)) <= histogram_total(series),
        exemplar_total(series.take(n)) <= exemplar_total(series),
    decreases series.len() - n,
{
    if n == series.len() {
        assert(series.take(n) =~= series);
    } else {
        lemma_totals_take(series, n);
        lemma_totals_grow(series, n + 1);
    }
}

/// Counts the samples, histograms and exemplars of a request.
pub fn summarize(request: &RemoteWriteRequest) -> (summary: IngestionSummary)
    requires
        countable(request@),
    ensures
        summary == summary_of(request@),
        summary.samples == sample_total(request@.timeseries),
        summary.histograms == histogram_total(request@.timeseries),
        summary.exemplars == exemplar_total(request@.timeseries),
{
    let mut samples: i64 = 0;
    let mut histograms: i64 = 0;
    let mut exemplars: i64 = 0;
    let ghost series = request@.timeseries;
    let mut i: usize = 0;
    assert(series.take(0) =~= Seq::empty());
    while i < request.timeseries.len()
        invariant
            i <= request.timeseries.len(),
            series == request@.timeseries,
            series.len() == request.timeseries.len(),
            countable(request@),
            samples == sample_total(series.take(i as int)),
            histograms == histogram_total(series.take(i as int)),
            exemplars == exemplar_total(series.take(i as int)),
        decreases request.timeseries.len() - i,
    {
        let one = &request.timeseries[i];
        proof {
            lemma_totals_take(series, i as int);
            lemma_totals_grow(series, i + 1);
            assert(series[i as int] == one@);
            assert(one@.histograms.len() == one.histograms.len());
            assert(one@.exemplars.len() == one.exemplars.len());
        }
        samples = samples + one.samples.len() as i64;
        histograms = histograms + one.histograms.len() as i64;
        exemplars = exemplars + one.exemplars.len() as i64;
        i = i + 1;
    }
    assert(series.take(i as int) =~= series);
    IngestionSummary { samples, histograms, exemplars }
}

} // verus!

//! The answers that the gateway gives.

use crate::error::{status_of, IngestError, IngestErrorView, NOT_FOUND, NO_CONTENT};
use crate::summary::IngestionSummary;
use crate::text::{decimal_string, decimal_text};
use vstd::prelude::*;
use vstd::string::StringExecFns;

verus! {

/// The header that reports how many samples a request held.
pub const SAMPLES_WRITTEN: &'static str = "X-Prometheus-Remote-Write-Samples-Written";

/// The header that reports how many histograms a request held.
pub const HISTOGRAMS_WRITTEN: &'static str = "X-Prometheus-Remote-Write-Histograms-Written";

/// The header that reports how many exemplars a request held.
pub const EXEMPLARS_WRITTEN: &'static str = "X-Prometheus-Remote-Write-Exemplars-Written";

/// An answer: status, headers in their order, and body.
#[derive(Clone, Debug, PartialEq, Eq)]
pub struct Response {
    pub status: u16,
    pub headers: Vec<(String, String)>,
    pub body: String,
}

/// An answer as a value.
pub struct ResponseView {
    pub status: u16,
    pub headers: Seq<(Seq<char>, Seq<char>)>,
    pub body: Seq<char>,
}

impl View for Response {
    type V = ResponseView;

    open spec fn view(&self) -> ResponseView {
        ResponseView {
            status: self.status,
            headers: Seq::new(self.headers@.len(), |i: int| self.headers@[i]@),
            body: self.body@,
        }
    }
}

/// The answer to a request that failed: the status of the failure, and
/// its text as the body.
pub open spec fn rejection(e: IngestErrorView) -> ResponseView {
    ResponseView { status: status_of(e.kind), headers: Seq::empty(), body: e.message }
}

/// The answer to a request that was forwarded: no content, and the three
/// totals in decimal, each under its header.
pub open spec fn acceptance(summary: IngestionSummary) -> ResponseView {
    ResponseView {
        status: NO_CONTENT,
        headers: seq![
            (SAMPLES_WRITTEN@, decimal_text(summary.samples as int)),
            (HISTOGRAMS_WRITTEN@, decimal_text(summary.histograms as int)),
            (EXEMPLARS_WRITTEN@, decimal_text(summary.exemplars as int)),
        ],
        body: Seq::empty(),
    }
}

/// The answer to a request that no route takes.
pub open spec fn not_found() -> ResponseView {
    ResponseView { status: NOT_FOUND, headers: Seq::empty(), body: "Not found\n"@ }
}

impl Response {
    /// Answers a request that failed.
    pub fn rejecting(e: &IngestError) -> (response: Response)
        ensures
            response@ == rejection(e@),
    {
        let response = Response { status: e.status(), headers: Vec::new(), body: e.message.clone() };
        assert(response@.headers =~= Seq::empty());
        response
    }

    /// Answers a request that was forwarded.
    pub fn accepting(summary: &IngestionSummary) -> (response: Response)
        ensures
            response@ == acceptance(*summary),
    {
        let mut headers: Vec<(String, String)> = Vec::new();
        headers.push((String::from_str(SAMPLES_WRITTEN), decimal_string(summary.samples)));
        headers.push((String::from_str(HISTOGRAMS_WRITTEN), decimal_string(summary.histograms)));
        headers.push((String::from_str(EXEMPLARS_WRITTEN), decimal_string(summary.exemplars)));
        let response = Response { status: NO_CONTENT, headers, body: String::new() };
        assert(response@.headers =~= acceptance(*summary).headers);
        response
    }

    /// Answers a request that no route takes.
    pub fn missing() -> (response: Response)
        ensures
            response@ == not_found(),
    {
        let response = Response { status: NOT_FOUND, headers: Vec::new(), body: String::from_str("Not found\n") };
        assert(response@.headers =~= Seq::empty());
        response
    }
}

} // verus!

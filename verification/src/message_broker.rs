//! What the gateway asks of a message broker: one message per request,
//! published under a fixed topic, and an answer that says whether it was
//! delivered.
//!
//! The broker client itself lives outside this library. It sends what a
//! `ProduceRequest` holds and reports back with a `DeliveryResult`; the
//! library depends on nothing else of it. A client that can wait for the
//! delivery implements `Producer`; one that cannot is given the message
//! and gives back the result by whatever means it has.

pub mod kafka;

use vstd::prelude::*;
use vstd::slice::slice_to_vec;
use vstd::string::StringExecFns;

verus! {

/// The topic that every accepted request is published under.
pub const INGEST_TOPIC: &'static str = "raw_metrics";

/// How many seconds a producer waits for the broker's acknowledgment.
pub const DELIVERY_TIMEOUT_SECS: u64 = 5;

/// One message for the broker.
#[derive(Clone, Debug, PartialEq, Eq)]
pub struct ProduceRequest {
    pub topic: String,
    pub key: Vec<u8>,
    pub value: Vec<u8>,
    pub headers: Vec<(String, Vec<u8>)>,
}

/// A message for the broker as a value.
pub struct ProduceRequestView {
    pub topic: Seq<char>,
    pub key: Seq<u8>,
    pub value: Seq<u8>,
    pub headers: Seq<(Seq<char>, Seq<u8>)>,
}

impl View for ProduceRequest {
    type V = ProduceRequestView;

    open spec fn view(&self) -> ProduceRequestView {
        ProduceRequestView {
            topic: self.topic@,
            key: self.key@,
            value: self.value@,
            headers: Seq::new(self.headers@.len(), |i: int| self.headers@[i]@),
        }
    }
}

/// The message that forwards a request body: the body as it arrived, under
/// the ingest topic, with no key and no headers.
pub open spec fn forwarded(body: Seq<u8>) -> ProduceRequestView {
    ProduceRequestView { topic: INGEST_TOPIC@, key: Seq::empty(), value: body, headers: Seq::empty() }
}

impl ProduceRequest {
    /// The message that forwards a request body.
    pub fn forwarding(body: &[u8]) -> (request: ProduceRequest)
        ensures
            request@ == forwarded(body@),
    {
        let request = ProduceRequest {
            topic: String::from_str(INGEST_TOPIC),
            key: Vec::new(),
            value: slice_to_vec(body),
            headers: Vec::new(),
        };
        assert(request@.headers =~= Seq::empty());
        request
    }
}

/// Where the broker put a message. The numbers mean nothing to the gateway.
#[derive(Clone, Copy, Debug, PartialEq, Eq, Structural)]
pub struct Delivery {
    pub partition: i32,
    pub offset: i64,
}

/// The ways in which a broker fails to take a message.
#[derive(Clone, Copy, Debug, PartialEq, Eq, Structural)]
pub enum FailureKind {
    /// The broker could not be reached.
    BrokerUnavailable,
    /// The broker did not acknowledge within the delivery timeout.
    DeliveryTimeout,
    /// The broker refused the message itself, as one that is too large.
    MessageRejected,
}

/// Whether the same message may be delivered when it is sent again.
pub open spec fn retryable_failure(kind: FailureKind) -> bool {
    kind != FailureKind::MessageRejected
}

impl FailureKind {
    /// Whether the same message may be delivered when it is sent again.
    pub fn retryable(&self) -> (yes: bool)
        ensures
            yes == retryable_failure(*self),
    {
        match self {
            FailureKind::BrokerUnavailable => true,
            FailureKind::DeliveryTimeout => true,
            FailureKind::MessageRejected => false,
        }
    }
}

/// A message that was not delivered, and the producer's words for why.
#[derive(Clone, Debug, PartialEq, Eq)]
pub struct ProduceFailure {
    pub kind: FailureKind,
    pub description: String,
}

/// How a produce call ended.
#[derive(Clone, Debug, PartialEq, Eq)]
pub enum DeliveryResult {
    Delivered(Delivery),
    Failed(ProduceFailure),
}

/// The end of a produce call as a value.
pub enum DeliveryResultView {
    Delivered(Delivery),
    Failed { kind: FailureKind, description: Seq<char> },
}

impl View for DeliveryResult {
    type V = DeliveryResultView;

    open spec fn view(&self) -> DeliveryResultView {
        match self {
            DeliveryResult::Delivered(delivery) => DeliveryResultView::Delivered(*delivery),
            DeliveryResult::Failed(failure) => DeliveryResultView::Failed {
                kind: failure.kind,
                description: failure.description@,
            },
        }
    }
}

/// The capability to publish one message. Nothing is known of what a
/// producer does with a message, nor of how the delivery ends: it may take
/// any time up to the delivery timeout, and it may fail. A producer serves
/// many requests at once and keeps in step by itself what it has to.
pub trait Producer {
    /// Publishes one message and waits until its delivery has ended.
    fn produce(&self, request: &ProduceRequest) -> DeliveryResult;
}

} // verus!

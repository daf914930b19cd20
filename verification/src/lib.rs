//! Ingestion gateway core for Prometheus remote-write requests.
//!
//! A request is validated, decompressed, decoded and summarised, and its
//! body, as it arrived, is handed on for publication to a message broker.
//!
//! - `validation`: the checks on `Content-Encoding` and `Content-Type`.
//! - `compression`: the decompression of the body.
//! - `wire`, `scalar`, `message`: the Protocol Buffers wire format.
//! - `remote_write`: the messages of a batch and their decoder.
//! - `encoding`, `batch_encoding`: the encoder, and that the decoder reads
//!   back what it writes.
//! - `summary`: the totals that are reported back to the client.
//! - `message_broker`: the message for the broker and the outcome of its
//!   delivery; `message_broker::kafka`: the configuration of a Kafka client.
//! - `handler`: the stages of a request, from headers to answer.
//! - `response`, `error`, `text`: answers, failures and their texts.
//! - `labels`: label sets of request counters.
//! - `laws`: what holds of the handler for every request.

pub mod summary;
pub mod wire;
pub mod scalar;
pub mod text;
pub mod error;
pub mod validation;
pub mod compression;
pub mod message_broker;
pub mod response;
pub mod handler;
pub mod labels;
pub mod laws;
pub mod message;
pub mod remote_write;
pub mod encoding;
pub mod batch_encoding;

//! Normalisation and delivery core of a log-shipping sidecar: raw runtime
//! log records become canonical JSON events, which a single forwarder writes
//! as newline-delimited JSON, in order, to a log store or to standard output.
pub mod canon;
pub mod event;
pub mod forwarder;
pub mod payload;
pub mod text;

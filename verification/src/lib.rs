//! A generic "execute" remote-call envelope: one RPC surface that carries
//! heterogeneous typed payloads (text, audio samples) as a `(type tag, bytes)`
//! wire pair, without changing the wire schema for every new payload kind.
//!
//! The core is the typed-payload codec: the tagged union [`proto::execute::ExecuteData`]
//! and its bidirectional, fallible conversion to and from the wire envelope
//! ([`proto::execute::ExecuteRequest`] / [`proto::execute::ExecuteResponse`]),
//! plus the sub-codec for structured audio payloads. The [`stream`] module
//! holds the call-shape adapter's state: a bounded FIFO buffer whose contracts
//! give per-direction ordering and backpressure, and the per-call lifecycle.

pub mod error;
pub mod proto;
pub mod stream;

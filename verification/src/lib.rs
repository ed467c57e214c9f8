//! Transport-agnostic pipeline for pose-detection results.
//!
//! Bytes arrive over a framed transport, each frame carries one binary
//! envelope, the envelope codec turns it into a [`protocol::DetectionResult`],
//! and a forwarder hands the decoded results to a bounded queue that a
//! [`detection::provider::DetectionProvider`] polls.
//!
//! The crate holds the decisions of that pipeline and proves them against
//! mathematical models; sockets and task scheduling live with the caller.

pub mod detection;
pub mod network;
pub mod protocol;
pub mod resources;

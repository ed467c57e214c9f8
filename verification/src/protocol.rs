//! The envelope codec and the data it produces.

pub mod fbs;

pub use crate::protocol::fbs::detection::classify;
pub use crate::protocol::fbs::detection::parse;
pub use crate::protocol::fbs::detection::Availability;
pub use crate::protocol::fbs::detection::DetectionResult;
pub use crate::protocol::fbs::detection::Envelope;
pub use crate::protocol::fbs::detection::Landmark;

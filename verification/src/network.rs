//! Framed transports and the forwarder that drives them.

pub mod forward;
pub mod provider;
pub mod stream;
pub mod tcp;
pub mod ws;

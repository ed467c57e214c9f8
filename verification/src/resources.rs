//! What the consumer keeps between ticks.

pub mod detection;

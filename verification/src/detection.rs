//! Sources of detection results.

pub mod provider;

//! Binary envelope format: tables addressed through offset tables, scalars
//! in little-endian byte order.

pub mod detection;
pub mod encoding;
pub mod wire;

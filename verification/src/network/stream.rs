//! The capability every framed transport offers.

use vstd::prelude::*;

verus! {

/// A source of length-delimited payloads.
///
/// Each call hands out the next payload in arrival order, or `None` once the
/// transport has ended, whether cleanly or through an error. After `None`
/// the transport stays ended.
pub trait PayloadStream {
    fn next_payload(&mut self) -> Option<Vec<u8>>;
}

} // verus!

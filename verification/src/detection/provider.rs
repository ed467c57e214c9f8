//! The polling contract between the pipeline and its consumer.

use crate::protocol::fbs::detection::DetectionResult;
use tokio::sync::mpsc::Receiver;
use vstd::prelude::*;

verus! {

/// A source of detection results that the consumer polls once per tick.
///
/// `poll` returns at once: the next result that is ready, or `None` when
/// there is none since the last call.
///
/// A provider says in `may_return` which results a poll may hand out in a
/// given state, and `poll` keeps to it. A provider whose results come from
/// elsewhere, as those of a queue do, admits every result, which is what a
/// provider says unless it states a rule of its own.
pub trait DetectionProvider: Send + Sync {
    /// The receiving end that the provider polls, if a queue stands behind
    /// it.
    open spec fn queue(&self) -> Option<Receiver<DetectionResult>> {
        None
    }

    /// Whether a poll of the provider in this state may return `result`.
    open spec fn may_return(&self, result: Option<DetectionResult>) -> bool {
        true
    }

    fn poll(&mut self) -> (r: Option<DetectionResult>)
        ensures
            old(self).may_return(r),
    ;
}

/// The clock of the synthetic provider: it counts the polls, and the
/// landmarks of a synthetic pose are a function of that count alone.
pub struct MockDetectionProvider {
    frame: usize,
}

impl MockDetectionProvider {
    /// The number of polls counted so far.
    pub closed spec fn frame(self) -> usize {
        self.frame
    }

    /// A provider that has not been polled yet.
    pub fn new() -> (p: Self)
        ensures
            p.frame() == 0,
    {
        Self { frame: 0 }
    }

    /// The number of polls counted so far.
    pub fn current_frame(&self) -> (n: usize)
        ensures
            n == self.frame(),
    {
        self.frame
    }

    /// Counts one more poll and returns the new count, which is the frame
    /// for which the caller is to produce landmarks.
    pub fn advance(&mut self) -> (n: usize)
        requires
            old(self).frame() < usize::MAX,
        ensures
            n == old(self).frame() + 1,
            final(self).frame() == n,
    {
        self.frame += 1;
        self.frame
    }
}

} // verus!

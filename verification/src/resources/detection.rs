//! The consumer's view of the pipeline: a provider and the result of the
//! last poll.

use crate::detection::provider::DetectionProvider;
use crate::network::provider::ChannelDetectionProvider;
use crate::protocol::fbs::detection::DetectionResult;
use tokio::sync::mpsc::Receiver;
use vstd::prelude::*;

verus! {

/// A provider together with what its last poll returned.
pub struct Detection {
    pub provider: Box<dyn DetectionProvider>,
    pub latest: Option<DetectionResult>,
}

impl Detection {
    /// Keeps what a poll returned, in place of what was kept before.
    pub fn store(&mut self, polled: Option<DetectionResult>)
        ensures
            final(self).latest == polled,
            final(self).provider == old(self).provider,
    {
        self.latest = polled;
    }

    /// Polls the provider once and keeps what it returned: afterwards
    /// `latest` is a result that the provider, as it stood before the call,
    /// may return from a poll.
    pub fn update(&mut self)
        ensures
            old(self).provider.may_return(final(self).latest),
    {
        let polled: Option<DetectionResult> = self.provider.poll();
        self.store(polled);
    }

    /// What the last poll returned.
    pub fn latest(&self) -> (r: Option<&DetectionResult>)
        ensures
            match r {
                Some(result) => self.latest == Some(*result),
                None => self.latest.is_none(),
            },
    {
        self.latest.as_ref()
    }

    /// A consumer view over the receiving end of a forwarder's queue, with
    /// nothing polled yet.
    pub fn from_tcp(rx: Receiver<DetectionResult>) -> (d: Self)
        ensures
            d.provider.queue() == Some(rx),
            d.latest.is_none(),
    {
        Self { provider: Box::new(ChannelDetectionProvider::new(rx)), latest: None }
    }
}

} // verus!

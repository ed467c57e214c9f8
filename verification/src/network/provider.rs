//! The queue-backed provider: a polling front for the receiving end of the
//! bounded queue that a forwarder feeds.

use crate::detection::provider::DetectionProvider;
use crate::protocol::fbs::detection::DetectionResult;
use tokio::sync::mpsc::error::TryRecvError;
use tokio::sync::mpsc::Receiver;
use vstd::prelude::*;

verus! {

/// The error of std's input and output operations, carried as it comes.
#[verifier::external_type_specification]
#[verifier::external_body]
pub struct ExIoError(std::io::Error);

/// The error of the `url` crate's parser, carried as it comes.
#[verifier::external_type_specification]
#[verifier::external_body]
pub struct ExParseError(url::ParseError);

/// Why a connection could not be set up. Either error is fatal to the
/// attempt that met it and is handed to the caller as it is.
#[derive(Debug)]
pub enum ConnectionError {
    /// Connecting or binding failed.
    Io(std::io::Error),
    /// The address could not be parsed.
    AddrParse(url::ParseError),
}

/// The receiving end of tokio's bounded channel. The queue behind it is
/// shared with the sending tasks, so nothing is stated of what it holds.
#[verifier::external_type_specification]
#[verifier::external_body]
#[verifier::reject_recursive_types(T)]
pub struct ExReceiver<T>(Receiver<T>);

/// What one look at the queue finds.
#[derive(Debug, Clone, PartialEq)]
pub enum Polled {
    /// The oldest result that was waiting; it has left the queue.
    Ready(DetectionResult),
    /// Nothing is waiting, and a sender is still there.
    Empty,
    /// Nothing is waiting, and every sender is gone.
    Disconnected,
}

/// A detection provider over the receiving end of a bounded queue.
pub struct ChannelDetectionProvider {
    receiver: Receiver<DetectionResult>,
}

/// Calls `tokio::sync::mpsc::Receiver::try_recv`: one attempt to take the
/// oldest value out of the queue, without waiting for a value to arrive.
/// Which of the three outcomes comes back depends on what the senders have
/// done, so the contract promises nothing about it.
#[verifier::external_body]
fn try_receive(receiver: &mut Receiver<DetectionResult>) -> (r: Polled) {
    match receiver.try_recv() {
        Ok(result) => Polled::Ready(result),
        Err(TryRecvError::Empty) => Polled::Empty,
        Err(TryRecvError::Disconnected) => Polled::Disconnected,
    }
}

/// What a poll returns for each outcome of a look at the queue: the result
/// if one was ready, and nothing otherwise, whether or not a sender is still
/// there.
pub fn polled_result(polled: Polled) -> (r: Option<DetectionResult>)
    ensures
        r == match polled {
            Polled::Ready(result) => Some(result),
            Polled::Empty => None,
            Polled::Disconnected => None,
        },
{
    match polled {
        Polled::Ready(result) => Some(result),
        Polled::Empty => None,
        Polled::Disconnected => None,
    }
}

impl ChannelDetectionProvider {
    /// The receiving end that this provider polls.
    pub closed spec fn receiver(self) -> Receiver<DetectionResult> {
        self.receiver
    }

    /// A provider that polls `receiver`.
    pub fn new(receiver: Receiver<DetectionResult>) -> (p: Self)
        ensures
            p.receiver() == receiver,
    {
        Self { receiver }
    }
}

impl DetectionProvider for ChannelDetectionProvider {
    open spec fn queue(&self) -> Option<Receiver<DetectionResult>> {
        Some(self.receiver())
    }

    /// Makes one attempt to take the oldest waiting result out of the queue
    /// and returns at once.
    fn poll(&mut self) -> Option<DetectionResult> {
        polled_result(try_receive(&mut self.receiver))
    }
}

} // verus!

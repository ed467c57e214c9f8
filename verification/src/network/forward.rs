//! The forwarder: pull a payload, decode it, enqueue the result, repeat.
//!
//! The forwarder owns no socket and no queue. It is the rule that says what
//! to do next: the caller pulls payloads from its transport, sends results to
//! its queue, and reports here what happened. A payload that does not decode
//! is dropped and the next one is pulled. The forwarder stops when the
//! transport ends or when the receiving side of the queue is gone. While a
//! result waits to be enqueued no further payload is asked for, so a full
//! queue holds the transport back.

use vstd::prelude::*;

verus! {

/// Where the forwarder stands in its loop.
#[derive(Debug, Clone, Copy, PartialEq, Eq, Structural)]
pub enum Phase {
    /// Waiting for the transport's next payload.
    Pulling,
    /// Waiting for the queue to take a result.
    Sending,
    /// Done for good.
    Stopped,
}

/// What can be reported to the forwarder.
pub enum Event<T> {
    /// The transport has ended.
    End,
    /// A payload of this many bytes arrived and did not decode.
    Undecodable(usize),
    /// A payload arrived and decoded to this result.
    Decoded(T),
    /// The queue took the result.
    Sent,
    /// The receiving side of the queue is gone.
    ReceiverGone,
}

/// What the caller is to do next.
#[derive(Debug, PartialEq, Eq)]
pub enum Next<T> {
    /// Pull the next payload and report it with `on_payload`.
    Pull,
    /// A payload of this many bytes was dropped. Pull the next payload and
    /// report it with `on_payload`.
    Skipped(usize),
    /// Send this result to the queue, waiting for room if the queue is full,
    /// and report the outcome with `on_sent`.
    Enqueue(T),
    /// Stop, and release the transport and the queue.
    Stop,
}

/// The forwarder's rule: the phase it moves to and what the caller is to do,
/// for each phase and event. An event that does not belong to the phase it
/// arrives in stops the forwarder.
pub open spec fn step<T>(phase: Phase, event: Event<T>) -> (Phase, Next<T>) {
    match (phase, event) {
        (Phase::Pulling, Event::Undecodable(len)) => (Phase::Pulling, Next::Skipped(len)),
        (Phase::Pulling, Event::Decoded(result)) => (Phase::Sending, Next::Enqueue(result)),
        (Phase::Sending, Event::Sent) => (Phase::Pulling, Next::Pull),
        _ => (Phase::Stopped, Next::Stop),
    }
}

/// The event that a payload of `len` bytes stands for, given what the
/// decoder made of it.
pub open spec fn payload_event<T>(decoded: Option<T>, len: usize) -> Event<T> {
    match decoded {
        Some(result) => Event::Decoded(result),
        None => Event::Undecodable(len),
    }
}

/// The event that the outcome of an enqueue stands for.
pub open spec fn sent_event<T>(delivered: bool) -> Event<T> {
    if delivered {
        Event::Sent
    } else {
        Event::ReceiverGone
    }
}

/// What the caller is told to do, one entry per event, when the events are
/// reported in order to a forwarder in `phase`.
pub open spec fn run<T>(phase: Phase, events: Seq<Event<T>>) -> Seq<Next<T>>
    decreases events.len(),
{
    if events.len() == 0 {
        Seq::empty()
    } else {
        seq![step(phase, events[0]).1] + run(step(phase, events[0]).0, events.skip(1))
    }
}

/// The state of one forwarder.
#[derive(Debug)]
pub struct Forwarder {
    phase: Phase,
}

impl Forwarder {
    /// The phase the forwarder is in.
    pub closed spec fn phase(self) -> Phase {
        self.phase
    }

    /// A forwarder about to pull its first payload.
    pub fn new() -> (f: Self)
        ensures
            f.phase() == Phase::Pulling,
    {
        Forwarder { phase: Phase::Pulling }
    }

    /// The phase the forwarder is in.
    pub fn current_phase(&self) -> (p: Phase)
        ensures
            p == self.phase(),
    {
        self.phase
    }

    /// Takes what the decoder made of a payload of `len` bytes.
    pub fn on_decoded<T>(&mut self, decoded: Option<T>, len: usize) -> (next: Next<T>)
        ensures
            (final(self).phase(), next) == step(old(self).phase(), payload_event(decoded, len)),
    {
        match self.phase {
            Phase::Pulling => match decoded {
                Some(result) => {
                    self.phase = Phase::Sending;
                    Next::Enqueue(result)
                },
                None => Next::Skipped(len),
            },
            _ => {
                self.phase = Phase::Stopped;
                Next::Stop
            },
        }
    }

    /// Takes what the transport returned for the last pull: a payload, which
    /// is handed to `parser`, or nothing when the transport has ended.
    ///
    /// The parser is called only while the forwarder is pulling.
    pub fn on_payload<T, P: Fn(&[u8]) -> Option<T>>(
        &mut self,
        payload: Option<Vec<u8>>,
        parser: &P,
    ) -> (next: Next<T>)
        requires
            forall|bytes: &[u8]| call_requires(parser, (bytes,)),
        ensures
            old(self).phase() != Phase::Pulling || payload.is_none() ==> (
                final(self).phase(),
                next,
            ) == step(old(self).phase(), Event::<T>::End),
            old(self).phase() == Phase::Pulling && payload.is_some() ==> exists|
                bytes: &[u8],
                decoded: Option<T>,
            |
                {
                    &&& bytes@ == payload.unwrap()@
                    &&& call_ensures(parser, (bytes,), decoded)
                    &&& (final(self).phase(), next) == step(
                        Phase::Pulling,
                        payload_event(decoded, payload.unwrap().len()),
                    )
                },
    {
        match self.phase {
            Phase::Pulling => match payload {
                Some(bytes) => {
                    let decoded: Option<T> = parser(bytes.as_slice());
                    self.on_decoded(decoded, bytes.len())
                },
                None => {
                    self.phase = Phase::Stopped;
                    Next::Stop
                },
            },
            _ => {
                self.phase = Phase::Stopped;
                Next::Stop
            },
        }
    }

    /// Takes the outcome of the last enqueue: `true` if the queue took the
    /// result, `false` if its receiving side is gone.
    pub fn on_sent<T>(&mut self, delivered: bool) -> (next: Next<T>)
        ensures
            (final(self).phase(), next) == step(old(self).phase(), sent_event::<T>(delivered)),
    {
        match self.phase {
            Phase::Sending => if delivered {
                self.phase = Phase::Pulling;
                Next::Pull
            } else {
                self.phase = Phase::Stopped;
                Next::Stop
            },
            _ => {
                self.phase = Phase::Stopped;
                Next::Stop
            },
        }
    }
}

/// A payload that does not decode does not stop the forwarder: it is
/// dropped, and the payload that follows it is decoded and enqueued.
pub proof fn lemma_decode_failure_is_skipped<T>(len: usize, result: T)
    ensures
        step(Phase::Pulling, Event::<T>::Undecodable(len)).0 == Phase::Pulling,
        run(Phase::Pulling, seq![Event::Undecodable(len), Event::Decoded(result)]) == seq![
            Next::Skipped(len),
            Next::Enqueue(result),
        ],
{
    let events = seq![Event::Undecodable(len), Event::Decoded(result)];
    let tail = events.skip(1);
    assert(tail[0] == Event::Decoded(result));
    assert(tail.skip(1).len() == 0);
    assert(run(Phase::Sending, tail.skip(1)) =~= Seq::<Next<T>>::empty());
    assert(run(Phase::Pulling, tail) =~= seq![Next::Enqueue(result)]);
    assert(run(Phase::Pulling, events) =~= seq![Next::Skipped(len), Next::Enqueue(result)]);
}

/// A stopped forwarder stays stopped: whatever is reported to it, it only
/// ever answers with [`Next::Stop`].
pub proof fn lemma_stopped_is_final<T>(events: Seq<Event<T>>)
    ensures
        run(Phase::Stopped, events).len() == events.len(),
        forall|i: int| 0 <= i < events.len() ==> run(Phase::Stopped, events)[i] == Next::<T>::Stop,
    decreases events.len(),
{
    if events.len() > 0 {
        lemma_stopped_is_final(events.skip(1));
    }
}

/// While a result waits to be enqueued the forwarder asks for no payload
/// and offers no other result: only the report that the queue took the
/// result makes it pull again, and every other report stops it.
pub proof fn lemma_no_pull_while_sending<T>(event: Event<T>)
    ensures
        event is Sent ==> step(Phase::Sending, event) == (Phase::Pulling, Next::<T>::Pull),
        !(event is Sent) ==> step(Phase::Sending, event) == (Phase::Stopped, Next::<T>::Stop),
{
}

/// When the receiving side of the queue is gone the forwarder stops at
/// once: it asks for nothing more, and no later report makes it pull or
/// enqueue again.
pub proof fn lemma_receiver_gone_stops<T>(later: Seq<Event<T>>)
    ensures
        step(Phase::Sending, Event::<T>::ReceiverGone) == (Phase::Stopped, Next::<T>::Stop),
        forall|i: int|
            0 <= i < later.len() ==> run(
                step(Phase::Sending, Event::<T>::ReceiverGone).0,
                later,
            )[i] == Next::<T>::Stop,
{
    lemma_stopped_is_final(later);
}

/// The reports of a run in which every payload decodes and the queue takes
/// every result: for each of `results`, in order, that it was decoded and
/// that it was sent.
pub open spec fn deliveries<T>(results: Seq<T>) -> Seq<Event<T>>
    decreases results.len(),
{
    if results.len() == 0 {
        Seq::empty()
    } else {
        seq![Event::Decoded(results[0]), Event::Sent] + deliveries(results.skip(1))
    }
}

/// What the caller is told during such a run: for each of `results`, in
/// order, to enqueue it and then to pull again.
pub open spec fn handovers<T>(results: Seq<T>) -> Seq<Next<T>>
    decreases results.len(),
{
    if results.len() == 0 {
        Seq::empty()
    } else {
        seq![Next::Enqueue(results[0]), Next::Pull] + handovers(results.skip(1))
    }
}

/// Results are enqueued in the order in which their payloads arrived, each
/// exactly once, and the next payload is pulled only after the queue took
/// the result before it.
pub proof fn lemma_results_keep_their_order<T>(results: Seq<T>)
    ensures
        run(Phase::Pulling, deliveries(results)) == handovers(results),
    decreases results.len(),
{
    if results.len() == 0 {
        assert(run(Phase::Pulling, deliveries(results)) =~= handovers(results));
    } else {
        let later = results.skip(1);
        let events = deliveries(results);
        lemma_results_keep_their_order(later);
        assert(events.skip(1).skip(1) =~= deliveries(later));
        assert(events[0] == Event::Decoded(results[0]));
        assert(events.skip(1)[0] == Event::<T>::Sent);
        assert(run(Phase::Sending, events.skip(1)) =~= seq![Next::Pull] + handovers(later));
        assert(run(Phase::Pulling, events) =~= handovers(results));
    }
}

} // verus!

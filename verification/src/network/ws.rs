//! Message-socket framing: every binary message is one payload.
//!
//! The socket also carries control messages. A ping is answered at once
//! with a pong that carries the same bytes; a pong, and any message that is
//! neither binary nor a ping, is passed over. A failed receive, a closed
//! socket or a pong that cannot be sent ends the stream.

use crate::network::provider::ConnectionError;
use crate::network::stream::PayloadStream;
use url::ParseError;
use url::Url;
use vstd::prelude::*;

verus! {

/// A parsed address from the `url` crate, carried as it comes.
#[verifier::external_type_specification]
#[verifier::external_body]
pub struct ExUrl(Url);

/// Whether the `url` crate's parser takes `input` for an absolute URL.
pub uninterp spec fn url_accepted(input: Seq<char>) -> bool;

/// Calls `url::Url::parse`. The parser looks at its input alone, so whether
/// it returns an address or an error is a fixed property of the input; the
/// contract gives that property its name and claims nothing else.
#[verifier::external_body]
fn parse_url(input: &str) -> (r: Result<Url, ParseError>)
    ensures
        r.is_ok() == url_accepted(input@),
{
    Url::parse(input)
}

/// Parses the address of a message socket, such as `ws://host:port`.
///
/// Returns the parsed address for every input that the parser takes for an
/// absolute URL, and [`ConnectionError::AddrParse`] with the parser's error
/// for every other input.
pub fn endpoint(address: &str) -> (r: Result<Url, ConnectionError>)
    ensures
        r.is_ok() == url_accepted(address@),
        r matches Err(e) ==> e is AddrParse,
{
    match parse_url(address) {
        Ok(url) => Ok(url),
        Err(e) => Err(ConnectionError::AddrParse(e)),
    }
}

/// A message as the socket delivers it, reduced to what the reader looks
/// at.
#[derive(Debug, Clone, PartialEq, Eq)]
pub enum SocketMessage {
    /// A binary message with its bytes.
    Binary(Vec<u8>),
    /// A ping with its bytes.
    Ping(Vec<u8>),
    /// A pong with its bytes.
    Pong(Vec<u8>),
    /// Any other message: text, a close notice, a raw frame.
    Other,
}

/// The outcome of one receive on the socket.
#[derive(Debug, Clone, PartialEq, Eq)]
pub enum Incoming {
    /// A message arrived.
    Message(SocketMessage),
    /// The receive failed.
    Failed,
    /// The socket is closed.
    Closed,
}

/// What the reader does about one receive.
#[derive(Debug, Clone, PartialEq, Eq)]
pub enum Reaction {
    /// Hand these bytes out as the next payload.
    Deliver(Vec<u8>),
    /// Send a pong with these bytes, then go by [`after_reply`].
    Reply(Vec<u8>),
    /// Receive again.
    Skip,
    /// End the stream.
    End,
}

/// The reaction that one receive calls for.
pub open spec fn reaction_of(incoming: Incoming) -> Reaction {
    match incoming {
        Incoming::Message(SocketMessage::Binary(data)) => Reaction::Deliver(data),
        Incoming::Message(SocketMessage::Ping(data)) => Reaction::Reply(data),
        Incoming::Message(SocketMessage::Pong(_)) => Reaction::Skip,
        Incoming::Message(SocketMessage::Other) => Reaction::Skip,
        Incoming::Failed => Reaction::End,
        Incoming::Closed => Reaction::End,
    }
}

/// Decides what to do about one receive.
pub fn react(incoming: Incoming) -> (r: Reaction)
    ensures
        r == reaction_of(incoming),
{
    match incoming {
        Incoming::Message(SocketMessage::Binary(data)) => Reaction::Deliver(data),
        Incoming::Message(SocketMessage::Ping(data)) => Reaction::Reply(data),
        Incoming::Message(SocketMessage::Pong(_)) => Reaction::Skip,
        Incoming::Message(SocketMessage::Other) => Reaction::Skip,
        Incoming::Failed => Reaction::End,
        Incoming::Closed => Reaction::End,
    }
}

/// Decides how to go on after the attempt to send a pong: receive again if
/// it was sent, end the stream if it was not.
pub fn after_reply(sent: bool) -> (r: Reaction)
    ensures
        r == if sent {
            Reaction::Skip
        } else {
            Reaction::End
        },
{
    if sent {
        Reaction::Skip
    } else {
        Reaction::End
    }
}

/// How one call for the next payload ends on a scripted socket.
pub ghost struct Pulled {
    /// The payload handed out, if the stream did not end.
    pub payload: Option<Vec<u8>>,
    /// The pongs sent on the way, in order.
    pub replies: Seq<Vec<u8>>,
    /// The receives left for later calls.
    pub rest: Seq<Incoming>,
    /// How many more pongs the peer will take.
    pub room: nat,
}

/// What the reader does with the receives `s` while the peer takes `room`
/// more pongs. It answers every ping it meets, passes over what is neither
/// binary nor a ping, and stops at the first binary message or at the end of
/// the stream. Once the stream has ended no receive is left.
pub open spec fn pull(s: Seq<Incoming>, room: nat) -> Pulled
    decreases s.len(),
{
    let ended = Pulled { payload: None, replies: Seq::empty(), rest: Seq::empty(), room };
    if s.len() == 0 {
        ended
    } else {
        match reaction_of(s[0]) {
            Reaction::Deliver(data) => Pulled {
                payload: Some(data),
                replies: Seq::empty(),
                rest: s.skip(1),
                room,
            },
            Reaction::Reply(data) => if room == 0 {
                ended
            } else {
                let later = pull(s.skip(1), (room - 1) as nat);
                Pulled {
                    payload: later.payload,
                    replies: seq![data] + later.replies,
                    rest: later.rest,
                    room: later.room,
                }
            },
            Reaction::Skip => pull(s.skip(1), room),
            Reaction::End => ended,
        }
    }
}

/// A message socket played from a script: the receives are fixed in
/// advance, and a synthetic peer records the pongs it is sent until it has
/// taken as many as it was set up to take.
pub struct FramedPayloadStream {
    incoming: Vec<Incoming>,
    replies: Vec<Vec<u8>>,
    room: usize,
}

impl FramedPayloadStream {
    /// The receives that have not happened yet.
    pub closed spec fn remaining(self) -> Seq<Incoming> {
        self.incoming@
    }

    /// The pongs that the peer has been sent, in order.
    pub closed spec fn replies(self) -> Seq<Vec<u8>> {
        self.replies@
    }

    /// How many more pongs the peer will take.
    pub closed spec fn room(self) -> nat {
        self.room as nat
    }

    /// A socket that will report `incoming` in order and then be closed,
    /// with a peer that takes `room` pongs.
    pub fn new(incoming: Vec<Incoming>, room: usize) -> (s: Self)
        ensures
            s.remaining() == incoming@,
            s.replies() == Seq::<Vec<u8>>::empty(),
            s.room() == room,
    {
        FramedPayloadStream { incoming, replies: Vec::new(), room }
    }

    /// The pongs that the peer has been sent, in order.
    pub fn sent_replies(&self) -> (r: &Vec<Vec<u8>>)
        ensures
            r@ == self.replies(),
    {
        &self.replies
    }
}

impl PayloadStream for FramedPayloadStream {
    /// Plays the script up to the next payload or the end of the stream.
    #[verifier::loop_isolation(false)]
    fn next_payload(&mut self) -> (r: Option<Vec<u8>>)
        ensures
            r == pull(old(self).remaining(), old(self).room()).payload,
            final(self).replies() == old(self).replies() + pull(
                old(self).remaining(),
                old(self).room(),
            ).replies,
            final(self).remaining() == pull(old(self).remaining(), old(self).room()).rest,
            final(self).room() == pull(old(self).remaining(), old(self).room()).room,
    {
        let ghost goal = pull(self.incoming@, self.room as nat);
        let ghost before = self.replies@;
        let ghost mut sent: Seq<Vec<u8>> = Seq::empty();
        assert(before + sent =~= before);
        loop
            invariant
                self.replies@ == before + sent,
                goal.payload == pull(self.incoming@, self.room as nat).payload,
                goal.replies == sent + pull(self.incoming@, self.room as nat).replies,
                goal.rest == pull(self.incoming@, self.room as nat).rest,
                goal.room == pull(self.incoming@, self.room as nat).room,
            decreases self.incoming@.len(),
        {
            if self.incoming.len() == 0 {
                assert(sent + Seq::<Vec<u8>>::empty() =~= sent);
                return None;
            }
            let ghost script = self.incoming@;
            let head: Incoming = self.incoming.remove(0);
            assert(self.incoming@ =~= script.skip(1));
            match react(head) {
                Reaction::Deliver(data) => {
                    assert(sent + Seq::<Vec<u8>>::empty() =~= sent);
                    return Some(data);
                },
                Reaction::Reply(data) => {
                    let reaction: Reaction = after_reply(self.room > 0);
                    match reaction {
                        Reaction::Skip => {
                            self.room = self.room - 1;
                            self.replies.push(data);
                            proof {
                                let later = pull(self.incoming@, self.room as nat);
                                assert(sent + (seq![data] + later.replies) =~= sent.push(data)
                                    + later.replies);
                                sent = sent.push(data);
                                assert(self.replies@ =~= before + sent);
                            }
                        },
                        _ => {
                            self.incoming.clear();
                            assert(sent + Seq::<Vec<u8>>::empty() =~= sent);
                            assert(self.incoming@ =~= Seq::<Incoming>::empty());
                            return None;
                        },
                    }
                },
                Reaction::Skip => {},
                Reaction::End => {
                    self.incoming.clear();
                    assert(sent + Seq::<Vec<u8>>::empty() =~= sent);
                    assert(self.incoming@ =~= Seq::<Incoming>::empty());
                    return None;
                },
            }
        }
    }
}

/// Ping and pong answer each other: when a ping arrives in front of a
/// binary message and the peer takes the answer, the reader sends exactly
/// one pong, with the bytes of the ping, before it hands the binary message
/// out, and whatever follows is left for the next call.
pub proof fn lemma_ping_is_answered_once(
    ping: Vec<u8>,
    data: Vec<u8>,
    rest: Seq<Incoming>,
    room: nat,
)
    requires
        room >= 1,
    ensures
        pull(
            seq![
                Incoming::Message(SocketMessage::Ping(ping)),
                Incoming::Message(SocketMessage::Binary(data)),
            ] + rest,
            room,
        ) == (Pulled {
            payload: Some(data),
            replies: seq![ping],
            rest: rest,
            room: (room - 1) as nat,
        }),
{
    let s = seq![
        Incoming::Message(SocketMessage::Ping(ping)),
        Incoming::Message(SocketMessage::Binary(data)),
    ] + rest;
    let t = s.skip(1);
    assert(t.skip(1) =~= rest);
    assert(pull(t, (room - 1) as nat).payload == Some(data));
    assert(seq![ping] + Seq::<Vec<u8>>::empty() =~= seq![ping]);
}

} // verus!

//! Stream-socket framing: every message is a 32-bit length followed by that
//! many payload bytes.
//!
//! The length is little-endian. A length of zero or above
//! [`MAX_FRAME_LEN`] is degenerate; [`LengthPolicy`] chooses what the reader
//! does with it. Under [`LengthPolicy::Skip`] the reader drops the bytes that
//! the header announces, hands out an empty payload in their place and goes
//! on with the header behind them, so that the frames that follow keep their
//! boundaries; under [`LengthPolicy::Terminate`] the stream ends. A stream
//! that stops in the middle of a frame, skipped or not, ends there.

use crate::network::stream::PayloadStream;
use crate::protocol::fbs::wire::le32;
use crate::protocol::fbs::wire::read32;
use vstd::prelude::*;

verus! {

/// Number of bytes in a frame header.
pub const HEADER_LEN: usize = 4;

/// The largest payload length that a header may announce.
pub const MAX_FRAME_LEN: u32 = 65536;

/// What the reader does with a header that announces a degenerate length.
#[derive(Debug, Clone, Copy, PartialEq, Eq)]
pub enum LengthPolicy {
    /// Drop the frame's body, hand out an empty payload and read the next
    /// header.
    Skip,
    /// End the stream.
    Terminate,
}

/// What a header asks the reader to do next.
#[derive(Debug, Clone, Copy, PartialEq, Eq)]
pub enum FramePlan {
    /// Read this many payload bytes and hand them out.
    Body(usize),
    /// Read this many bytes, more than any frame may carry, drop them and
    /// hand out an empty payload.
    Discard(usize),
    /// Hand out an empty payload without reading anything.
    Empty,
    /// End the stream.
    End,
}

/// A length that no frame may announce.
pub open spec fn degenerate(n: int) -> bool {
    n == 0 || n > MAX_FRAME_LEN as int
}

/// The plan that a header calls for under a policy.
pub open spec fn plan_of(header: Seq<u8>, policy: LengthPolicy) -> FramePlan {
    let n = le32(header, 0);
    if !degenerate(n) {
        FramePlan::Body(n as usize)
    } else {
        match policy {
            LengthPolicy::Skip => if n == 0 {
                FramePlan::Empty
            } else {
                FramePlan::Discard(n as usize)
            },
            LengthPolicy::Terminate => FramePlan::End,
        }
    }
}

/// Decides what to do after reading a frame header.
pub fn plan_frame(header: &[u8; 4], policy: LengthPolicy) -> (r: FramePlan)
    ensures
        r == plan_of(header@, policy),
{
    let n: u32 = read32(header.as_slice(), 0);
    if n != 0 && n <= MAX_FRAME_LEN {
        FramePlan::Body(n as usize)
    } else {
        match policy {
            LengthPolicy::Skip => if n == 0 {
                FramePlan::Empty
            } else {
                FramePlan::Discard(n as usize)
            },
            LengthPolicy::Terminate => FramePlan::End,
        }
    }
}


/// One read from a byte stream: the payload handed out and the bytes left
/// behind it, or nothing when the stream ends.
///
/// The stream ends when fewer than four bytes are left for a header, when
/// the bytes that a header announces are not there in full, whether they
/// are to be handed out or dropped, or when the policy ends it at a
/// degenerate length.
pub open spec fn next_frame(s: Seq<u8>, policy: LengthPolicy) -> Option<(Seq<u8>, Seq<u8>)> {
    if s.len() < 4 {
        None
    } else {
        match plan_of(s.subrange(0, 4), policy) {
            FramePlan::Body(n) => if s.len() < 4 + n {
                None
            } else {
                Some((s.subrange(4, 4 + n), s.skip(4 + n)))
            },
            FramePlan::Discard(n) => if s.len() < 4 + n {
                None
            } else {
                Some((Seq::empty(), s.skip(4 + n)))
            },
            FramePlan::Empty => Some((Seq::empty(), s.skip(4))),
            FramePlan::End => None,
        }
    }
}

/// All the payloads that repeated reads hand out of a byte stream, in order.
pub open spec fn frames(s: Seq<u8>, policy: LengthPolicy) -> Seq<Seq<u8>>
    decreases s.len(),
{
    match next_frame(s, policy) {
        Some((payload, rest)) => if rest.len() < s.len() {
            seq![payload] + frames(rest, policy)
        } else {
            Seq::empty()
        },
        None => Seq::empty(),
    }
}

/// A framed reader over bytes that are already in memory.
///
/// The bytes stand for everything the peer ever sends on one connection, so
/// running out of them is the end of the stream.
pub struct FramedPayloadStream {
    data: Vec<u8>,
    pos: usize,
    policy: LengthPolicy,
}

/// Copies `data[from..to]` into a vector of its own.
fn copy_range(data: &Vec<u8>, from: usize, to: usize) -> (out: Vec<u8>)
    requires
        from <= to <= data@.len(),
    ensures
        out@ == data@.subrange(from as int, to as int),
{
    let mut out: Vec<u8> = Vec::new();
    let mut i: usize = from;
    while i < to
        invariant
            from <= i <= to <= data@.len(),
            out@ == data@.subrange(from as int, i as int),
        decreases to - i,
    {
        out.push(data[i]);
        i += 1;
        assert(out@ =~= data@.subrange(from as int, i as int));
    }
    out
}

impl FramedPayloadStream {
    #[verifier::type_invariant]
    spec fn in_bounds(self) -> bool {
        self.pos <= self.data@.len()
    }

    /// The bytes that have not been read yet.
    pub closed spec fn remaining(self) -> Seq<u8> {
        self.data@.skip(self.pos as int)
    }

    /// The policy on degenerate lengths that this reader applies.
    pub closed spec fn policy(self) -> LengthPolicy {
        self.policy
    }

    /// A reader at the start of `data`.
    pub fn new(data: Vec<u8>, policy: LengthPolicy) -> (s: Self)
        ensures
            s.remaining() == data@,
            s.policy() == policy,
    {
        assert(data@.skip(0) =~= data@);
        FramedPayloadStream { data, pos: 0, policy }
    }

    /// Gives up on the rest of the stream.
    fn close(&mut self)
        ensures
            final(self).remaining() == Seq::<u8>::empty(),
            final(self).policy() == old(self).policy(),
    {
        self.pos = self.data.len();
        assert(self.data@.skip(self.pos as int) =~= Seq::<u8>::empty());
    }
}

impl PayloadStream for FramedPayloadStream {
    /// Reads the next frame. Once the stream has ended nothing is left, so
    /// every later call ends as well.
    fn next_payload(&mut self) -> (r: Option<Vec<u8>>)
        ensures
            final(self).policy() == old(self).policy(),
            match next_frame(old(self).remaining(), old(self).policy()) {
                Some((payload, rest)) => {
                    &&& r.is_some()
                    &&& r.unwrap()@ == payload
                    &&& final(self).remaining() == rest
                },
                None => r.is_none() && final(self).remaining() == Seq::<u8>::empty(),
            },
    {
        proof {
            use_type_invariant(&*self);
        }
        let len: usize = self.data.len();
        let start: usize = self.pos;
        if len - start < HEADER_LEN {
            self.close();
            return None;
        }
        let header: [u8; 4] = [
            self.data[start],
            self.data[start + 1],
            self.data[start + 2],
            self.data[start + 3],
        ];
        assert(header@ =~= old(self).remaining().subrange(0, 4));
        match plan_frame(&header, self.policy) {
            FramePlan::Body(n) => {
                if len - start - HEADER_LEN < n {
                    self.close();
                    return None;
                }
                let body: Vec<u8> = copy_range(&self.data, start + HEADER_LEN, start + HEADER_LEN + n);
                self.pos = start + HEADER_LEN + n;
                assert(body@ =~= old(self).remaining().subrange(4, 4 + n));
                assert(self.data@.skip(self.pos as int) =~= old(self).remaining().skip(4 + n));
                Some(body)
            },
            FramePlan::Discard(n) => {
                if len - start - HEADER_LEN < n {
                    self.close();
                    return None;
                }
                self.pos = start + HEADER_LEN + n;
                assert(self.data@.skip(self.pos as int) =~= old(self).remaining().skip(4 + n));
                Some(Vec::new())
            },
            FramePlan::Empty => {
                self.pos = start + HEADER_LEN;
                assert(self.data@.skip(self.pos as int) =~= old(self).remaining().skip(4));
                Some(Vec::new())
            },
            FramePlan::End => {
                self.close();
                None
            },
        }
    }
}

/// The four header bytes that announce a payload of `n` bytes.
pub open spec fn length_prefix(n: int) -> Seq<u8> {
    seq![
        (n % 256) as u8,
        ((n / 256) % 256) as u8,
        ((n / 65536) % 256) as u8,
        ((n / 16777216) % 256) as u8,
    ]
}

/// A payload as it travels on the stream: its length, then its bytes.
pub open spec fn framed(payload: Seq<u8>) -> Seq<u8> {
    length_prefix(payload.len() as int) + payload
}

/// A header reads back as the length it was written for.
pub proof fn lemma_length_prefix(n: int)
    requires
        0 <= n < 0x1_0000_0000,
    ensures
        length_prefix(n).len() == 4,
        le32(length_prefix(n), 0) == n,
{
}

/// A well-formed frame in front of any bytes reads as its payload, and the
/// reader stands right behind it afterwards.
pub proof fn lemma_frame_then_rest(payload: Seq<u8>, rest: Seq<u8>, policy: LengthPolicy)
    requires
        1 <= payload.len() <= MAX_FRAME_LEN,
    ensures
        next_frame(framed(payload) + rest, policy) == Some((payload, rest)),
        frames(framed(payload) + rest, policy) == seq![payload] + frames(rest, policy),
{
    let n = payload.len() as int;
    let s = framed(payload) + rest;
    lemma_length_prefix(n);
    assert(s.subrange(0, 4) =~= length_prefix(n));
    assert(s.subrange(4, 4 + n) =~= payload);
    assert(s.skip(4 + n) =~= rest);
}

/// Frame boundaries are kept: two well-formed frames written one after the
/// other are read as exactly two payloads, each with its own bytes, in the
/// order in which they were written.
pub proof fn lemma_two_frames(first: Seq<u8>, second: Seq<u8>, policy: LengthPolicy)
    requires
        1 <= first.len() <= MAX_FRAME_LEN,
        1 <= second.len() <= MAX_FRAME_LEN,
    ensures
        frames(framed(first) + framed(second), policy) == seq![first, second],
{
    let empty = Seq::<u8>::empty();
    lemma_frame_then_rest(first, framed(second), policy);
    lemma_frame_then_rest(second, empty, policy);
    assert(framed(second) + empty =~= framed(second));
    assert(frames(empty, policy) =~= Seq::<Seq<u8>>::empty());
    assert(seq![first] + (seq![second] + Seq::<Seq<u8>>::empty()) =~= seq![first, second]);
}

/// A frame with a degenerate length never throws the reader off. Under
/// [`LengthPolicy::Skip`] the header and the body that it announces yield
/// one empty payload, no byte of the body is handed out or taken for a
/// header, and what stands behind the body is read as if the frame had not
/// been there; under [`LengthPolicy::Terminate`] nothing more is read.
pub proof fn lemma_degenerate_header(header: Seq<u8>, body: Seq<u8>, rest: Seq<u8>)
    requires
        header.len() == 4,
        degenerate(le32(header, 0)),
        body.len() == le32(header, 0),
    ensures
        next_frame(header + body + rest, LengthPolicy::Skip) == Some((Seq::<u8>::empty(), rest)),
        frames(header + body + rest, LengthPolicy::Skip) == seq![Seq::<u8>::empty()] + frames(
            rest,
            LengthPolicy::Skip,
        ),
        frames(header + body + rest, LengthPolicy::Terminate) == Seq::<Seq<u8>>::empty(),
{
    let s = header + body + rest;
    let n = body.len() as int;
    assert(s.subrange(0, 4) =~= header);
    assert(s.skip(4 + n) =~= rest);
}

/// Skipping keeps the frames that follow in step: behind a frame with a
/// degenerate length and its whole body, the next well-formed frame is read
/// as its own payload.
pub proof fn lemma_skip_resynchronizes(header: Seq<u8>, body: Seq<u8>, payload: Seq<u8>)
    requires
        header.len() == 4,
        degenerate(le32(header, 0)),
        body.len() == le32(header, 0),
        1 <= payload.len() <= MAX_FRAME_LEN,
    ensures
        frames(header + body + framed(payload), LengthPolicy::Skip) == seq![
            Seq::<u8>::empty(),
            payload,
        ],
{
    let empty = Seq::<u8>::empty();
    lemma_degenerate_header(header, body, framed(payload));
    lemma_frame_then_rest(payload, empty, LengthPolicy::Skip);
    assert(framed(payload) + empty =~= framed(payload));
    assert(frames(empty, LengthPolicy::Skip) =~= Seq::<Seq<u8>>::empty());
    assert(seq![empty] + (seq![payload] + Seq::<Seq<u8>>::empty()) =~= seq![empty, payload]);
}

/// A skipped frame whose body is cut short ends the stream: when fewer
/// bytes follow the header than it announces, nothing is handed out.
pub proof fn lemma_short_skip_ends(header: Seq<u8>, tail: Seq<u8>)
    requires
        header.len() == 4,
        degenerate(le32(header, 0)),
        tail.len() < le32(header, 0),
    ensures
        frames(header + tail, LengthPolicy::Skip) == Seq::<Seq<u8>>::empty(),
{
    assert((header + tail).subrange(0, 4) =~= header);
}

/// The payloads `payloads` as they travel on the stream, one frame after the
/// other.
pub open spec fn framed_all(payloads: Seq<Seq<u8>>) -> Seq<u8>
    decreases payloads.len(),
{
    if payloads.len() == 0 {
        Seq::empty()
    } else {
        framed(payloads[0]) + framed_all(payloads.skip(1))
    }
}

/// Payloads come out in arrival order: any number of well-formed frames
/// written one after the other are read as exactly the payloads that were
/// written, none merged, split, repeated or out of place.
pub proof fn lemma_frames_in_order(payloads: Seq<Seq<u8>>, policy: LengthPolicy)
    requires
        forall|i: int| 0 <= i < payloads.len() ==> 1 <= (#[trigger] payloads[i]).len() <= MAX_FRAME_LEN,
    ensures
        frames(framed_all(payloads), policy) == payloads,
    decreases payloads.len(),
{
    if payloads.len() == 0 {
        assert(frames(framed_all(payloads), policy) =~= payloads);
    } else {
        let later = payloads.skip(1);
        assert forall|i: int| 0 <= i < later.len() implies 1 <= (#[trigger] later[i]).len()
            <= MAX_FRAME_LEN by {
            assert(later[i] == payloads[i + 1]);
        }
        lemma_frames_in_order(later, policy);
        lemma_frame_then_rest(payloads[0], framed_all(later), policy);
        assert(seq![payloads[0]] + later =~= payloads);
    }
}

} // verus!

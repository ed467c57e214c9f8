//! The detection envelope: its data model and its decoder.
//!
//! An envelope is a root table with a payload tag and a payload. Only the
//! pose payload yields a result: a table holding a vector of landmark tables,
//! each with three coordinates and an optional availability table.
//!
//! Two limits keep a small buffer from standing for a huge detection. Every
//! visit of a table counts, and so does every byte that the walk through
//! the envelope looks at, each time it looks; tables and bytes that several
//! references share count once for each reference. An envelope of more than
//! [`MAX_TABLES`] tables or of more than [`MAX_APPARENT_SIZE`] bytes is
//! refused as malformed.
//!
//! Every 32-bit float is carried as its IEEE-754 bit pattern in a `u32`. The
//! decoder moves the four little-endian bytes into that pattern and never
//! interprets them, so values outside the usual ranges pass through
//! unchanged. `f32::from_bits` recovers the number.

use crate::protocol::fbs::wire::field_of;
use crate::protocol::fbs::wire::find_field;
use crate::protocol::fbs::wire::find_vector;
use crate::protocol::fbs::wire::find_vtable;
use crate::protocol::fbs::wire::follow;
use crate::protocol::fbs::wire::follow_offset;
use crate::protocol::fbs::wire::read_scalar;
use crate::protocol::fbs::wire::scalar_cost;
use crate::protocol::fbs::wire::scalar_of;
use crate::protocol::fbs::wire::scalar_size;
use crate::protocol::fbs::wire::slot_cost;
use crate::protocol::fbs::wire::slot_size;
use crate::protocol::fbs::wire::table_cost;
use crate::protocol::fbs::wire::table_size;
use crate::protocol::fbs::wire::vector_of;
use crate::protocol::fbs::wire::vtable_of;
use crate::protocol::fbs::wire::Field;
use vstd::prelude::*;

verus! {

/// Confidence that a landmark is in frame (`visibility`) and actually
/// tracked (`presence`), each the bit pattern of a 32-bit float.
#[derive(Debug, Clone, PartialEq)]
pub struct Availability {
    pub visibility: u32,
    pub presence: u32,
}

/// One tracked point: normalized image coordinates `x` and `y`, a relative
/// depth `z`, each the bit pattern of a 32-bit float, and the confidence
/// metadata if the sender supplied any.
#[derive(Debug, Clone, PartialEq)]
pub struct Landmark {
    pub x: u32,
    pub y: u32,
    pub z: u32,
    pub availability: Option<Availability>,
}

/// The landmarks of one detection, in the order in which they were sent.
#[derive(Debug, Clone, PartialEq)]
pub struct DetectionResult {
    pub landmarks: Vec<Landmark>,
}

/// What a buffer turns out to be when it is decoded.
#[derive(Debug, Clone, PartialEq)]
pub enum Envelope {
    /// A well-formed pose envelope with its detection.
    Pose(DetectionResult),
    /// A well-formed envelope that carries nothing.
    Empty,
    /// A well-formed envelope whose payload tag is not one that the decoder
    /// reads; the tag is zero when the envelope names no payload.
    Unknown(u8),
    /// Not a well-formed envelope.
    Malformed,
}

/// The model of [`Envelope`], with the landmarks as a sequence.
pub ghost enum EnvelopeView {
    Pose(Seq<Landmark>),
    Empty,
    Unknown(u8),
    Malformed,
}

impl View for Envelope {
    type V = EnvelopeView;

    open spec fn view(&self) -> EnvelopeView {
        match *self {
            Envelope::Pose(d) => EnvelopeView::Pose(d@),
            Envelope::Empty => EnvelopeView::Empty,
            Envelope::Unknown(tag) => EnvelopeView::Unknown(tag),
            Envelope::Malformed => EnvelopeView::Malformed,
        }
    }
}

pub type PoseDetectionResult = DetectionResult;

pub type HandDetectionResult = DetectionResult;

impl View for DetectionResult {
    type V = Seq<Landmark>;

    open spec fn view(&self) -> Seq<Landmark> {
        self.landmarks@
    }
}

/// The largest number of tables that a well-formed envelope may hold.
pub const MAX_TABLES: usize = 1_000_000;

/// The largest number of bytes that the walk through a well-formed envelope
/// may look at.
pub const MAX_APPARENT_SIZE: u64 = 0x8000_0000;

/// Payload tag of an envelope that carries nothing.
pub const TAG_EMPTY: u8 = 1;

/// Payload tag of an envelope that carries a pose detection.
pub const TAG_POSE: u8 = 2;

/// Slot of the payload tag in the root table.
pub const SLOT_PAYLOAD_TYPE: u16 = 4;

/// Slot of the payload in the root table.
pub const SLOT_PAYLOAD: u16 = 6;

/// Slot of the landmark vector in the pose table.
pub const SLOT_LANDMARKS: u16 = 4;

/// Slot of `x` in a landmark table.
pub const SLOT_X: u16 = 4;

/// Slot of `y` in a landmark table.
pub const SLOT_Y: u16 = 6;

/// Slot of `z` in a landmark table.
pub const SLOT_Z: u16 = 8;

/// Slot of the availability table in a landmark table.
pub const SLOT_AVAILABILITY: u16 = 10;

/// Slot of `visibility` in an availability table.
pub const SLOT_VISIBILITY: u16 = 4;

/// Slot of `presence` in an availability table.
pub const SLOT_PRESENCE: u16 = 6;

/// The availability stored in the table at `a`, if that table is well
/// formed.
pub open spec fn availability_at(b: Seq<u8>, a: int) -> Option<Availability> {
    match vtable_of(b, a) {
        Some(v) => match (
            scalar_of(b, a, v, SLOT_VISIBILITY as int),
            scalar_of(b, a, v, SLOT_PRESENCE as int),
        ) {
            (Some(visibility), Some(presence)) => Some(Availability { visibility, presence }),
            _ => None,
        },
        None => None,
    }
}

/// The availability of the landmark table at `l` with offset table `v`:
/// nothing when the reference is malformed, `Some(None)` when the landmark
/// carries no availability.
pub open spec fn availability_of(b: Seq<u8>, l: int, v: int) -> Option<Option<Availability>> {
    match field_of(b, l, v, SLOT_AVAILABILITY as int) {
        Field::Absent => Some(None),
        Field::At(p) => match follow(b, p) {
            Some(a) => match availability_at(b, a) {
                Some(av) => Some(Some(av)),
                None => None,
            },
            None => None,
        },
        Field::Broken => None,
    }
}

/// The landmark stored in the table at `l`, if that table is well formed.
pub open spec fn landmark_at(b: Seq<u8>, l: int) -> Option<Landmark> {
    match vtable_of(b, l) {
        Some(v) => match (
            scalar_of(b, l, v, SLOT_X as int),
            scalar_of(b, l, v, SLOT_Y as int),
            scalar_of(b, l, v, SLOT_Z as int),
            availability_of(b, l, v),
        ) {
            (Some(x), Some(y), Some(z), Some(availability)) => Some(
                Landmark { x, y, z, availability },
            ),
            _ => None,
        },
        None => None,
    }
}

/// The landmark that element `i` of the vector starting at `start` refers to.
pub open spec fn element_at(b: Seq<u8>, start: int, i: int) -> Option<Landmark> {
    match follow(b, start + 4 * i) {
        Some(l) => landmark_at(b, l),
        None => None,
    }
}

/// The landmarks of the vector of `n` elements starting at `start`, if every
/// element is well formed.
pub open spec fn elements_of(b: Seq<u8>, start: int, n: int) -> Option<Seq<Landmark>> {
    if forall|i: int| 0 <= i < n ==> (#[trigger] element_at(b, start, i)).is_some() {
        Some(Seq::new(n as nat, |i: int| element_at(b, start, i).unwrap()))
    } else {
        None
    }
}

/// The landmarks of the pose table at `t`. A pose table without a landmark
/// vector stands for an empty detection.
pub open spec fn pose_at(b: Seq<u8>, t: int) -> Option<Seq<Landmark>> {
    match vtable_of(b, t) {
        Some(v) => match field_of(b, t, v, SLOT_LANDMARKS as int) {
            Field::Absent => Some(Seq::empty()),
            Field::At(p) => match follow(b, p) {
                Some(q) => match vector_of(b, q) {
                    Some((start, n)) => elements_of(b, start, n),
                    None => None,
                },
                None => None,
            },
            Field::Broken => None,
        },
        None => None,
    }
}

/// The number of tables that the first `i` of the landmarks `s` take: one
/// for each landmark and one more for each availability.
pub open spec fn tables_in(s: Seq<Landmark>, i: int) -> int
    decreases i,
{
    if i <= 0 {
        0
    } else {
        tables_in(s, i - 1) + if s[i - 1].availability is Some {
            2int
        } else {
            1int
        }
    }
}

/// The number of tables in a pose envelope with the landmarks `s`: the root
/// table, the pose table, and those that the landmarks take.
pub open spec fn table_count(s: Seq<Landmark>) -> int {
    2 + tables_in(s, s.len() as int)
}

/// The bytes that the walk looks at in the availability table at `a`.
pub open spec fn availability_size(b: Seq<u8>, a: int) -> int {
    match vtable_of(b, a) {
        Some(v) => table_size(b, v) + scalar_size(b, a, v, SLOT_VISIBILITY as int) + scalar_size(
            b,
            a,
            v,
            SLOT_PRESENCE as int,
        ),
        None => 0,
    }
}

/// The bytes that the walk looks at for the availability of the landmark
/// table at `l`: the lookup and, where the landmark has one, the reference
/// and the availability table.
pub open spec fn availability_ref_size(b: Seq<u8>, l: int, v: int) -> int {
    slot_size(b, v, SLOT_AVAILABILITY as int) + match field_of(b, l, v, SLOT_AVAILABILITY as int) {
        Field::At(p) => 4 + match follow(b, p) {
            Some(a) => availability_size(b, a),
            None => 0,
        },
        _ => 0,
    }
}

/// The bytes that the walk looks at in the landmark table at `l` and in
/// what it refers to.
pub open spec fn landmark_size(b: Seq<u8>, l: int) -> int {
    match vtable_of(b, l) {
        Some(v) => table_size(b, v) + scalar_size(b, l, v, SLOT_X as int) + scalar_size(
            b,
            l,
            v,
            SLOT_Y as int,
        ) + scalar_size(b, l, v, SLOT_Z as int) + availability_ref_size(b, l, v),
        None => 0,
    }
}

/// The bytes that the walk looks at for element `i` of the vector starting
/// at `start`: the element and the landmark that it refers to.
pub open spec fn element_size(b: Seq<u8>, start: int, i: int) -> int {
    4 + match follow(b, start + 4 * i) {
        Some(l) => landmark_size(b, l),
        None => 0,
    }
}

/// The bytes that the walk looks at for the first `i` elements of the
/// vector starting at `start`.
pub open spec fn elements_size(b: Seq<u8>, start: int, i: int) -> int
    decreases i,
{
    if i <= 0 {
        0
    } else {
        elements_size(b, start, i - 1) + element_size(b, start, i - 1)
    }
}

/// The bytes that the walk looks at for the landmark vector of the pose
/// table at `t` with offset table `v`: the lookup and, where the vector is
/// there, the reference to it, its length, its elements as a whole, and
/// then each element with its landmark.
pub open spec fn vector_size(b: Seq<u8>, t: int, v: int) -> int {
    slot_size(b, v, SLOT_LANDMARKS as int) + match field_of(b, t, v, SLOT_LANDMARKS as int) {
        Field::At(p) => match follow(b, p) {
            Some(q) => match vector_of(b, q) {
                Some((start, n)) => 8 + 4 * n + elements_size(b, start, n),
                None => 0,
            },
            None => 0,
        },
        _ => 0,
    }
}

/// The bytes that the walk looks at in the pose table at `t` and in what it
/// refers to.
pub open spec fn pose_size(b: Seq<u8>, t: int) -> int {
    match vtable_of(b, t) {
        Some(v) => table_size(b, v) + vector_size(b, t, v),
        None => 0,
    }
}

/// The bytes that the walk looks at before it reaches the payload, for a
/// root table with the offset table `v`: the root reference, the root
/// table, the lookups of tag and payload, the tag and the payload
/// reference.
pub open spec fn root_size(b: Seq<u8>, v: int) -> int {
    4 + table_size(b, v) + slot_size(b, v, SLOT_PAYLOAD as int) + slot_size(
        b,
        v,
        SLOT_PAYLOAD_TYPE as int,
    ) + 5
}

/// What the payload at field position `p` turns out to be under the tag
/// `tag`, behind a root table with the offset table `v`. A pose payload must
/// be a well-formed pose table within the limits on tables and on bytes, an
/// empty payload a well-formed table; a payload under any other tag is not
/// looked at.
pub open spec fn payload_of(b: Seq<u8>, tag: u8, p: int, v: int) -> EnvelopeView {
    if tag == TAG_POSE {
        match follow(b, p) {
            Some(t) => match pose_at(b, t) {
                Some(s) => if table_count(s) <= MAX_TABLES && root_size(b, v) + pose_size(b, t)
                    <= MAX_APPARENT_SIZE {
                    EnvelopeView::Pose(s)
                } else {
                    EnvelopeView::Malformed
                },
                None => EnvelopeView::Malformed,
            },
            None => EnvelopeView::Malformed,
        }
    } else if tag == TAG_EMPTY {
        match follow(b, p) {
            Some(t) => if vtable_of(b, t) is Some {
                EnvelopeView::Empty
            } else {
                EnvelopeView::Malformed
            },
            None => EnvelopeView::Malformed,
        }
    } else {
        EnvelopeView::Unknown(tag)
    }
}

/// What a buffer turns out to be.
///
/// The buffer starts with the offset of the root table. The root table
/// carries the payload tag and the payload, or neither of them, which
/// stands for the tag zero; a root table with only one of the two is
/// malformed. Where the payload lies matters only under a tag that the
/// decoder reads.
pub open spec fn envelope_of(b: Seq<u8>) -> EnvelopeView {
    match follow(b, 0) {
        Some(root) => match vtable_of(b, root) {
            Some(v) => match (
                field_of(b, root, v, SLOT_PAYLOAD_TYPE as int),
                field_of(b, root, v, SLOT_PAYLOAD as int),
            ) {
                (Field::At(k), Field::At(p)) => payload_of(b, b[k], p, v),
                (Field::At(k), Field::Broken) => if b[k] == TAG_POSE || b[k] == TAG_EMPTY {
                    EnvelopeView::Malformed
                } else {
                    EnvelopeView::Unknown(b[k])
                },
                (Field::Absent, Field::Absent) => EnvelopeView::Unknown(0),
                _ => EnvelopeView::Malformed,
            },
            None => EnvelopeView::Malformed,
        },
        None => EnvelopeView::Malformed,
    }
}

/// What an envelope decodes to: the landmarks of a well-formed pose
/// envelope, and nothing for every other buffer.
pub open spec fn decode(b: Seq<u8>) -> Option<Seq<Landmark>> {
    match envelope_of(b) {
        EnvelopeView::Pose(s) => Some(s),
        _ => None,
    }
}

/// Landmark sequences that agree on their first `i` landmarks take the same
/// number of tables for them.
pub proof fn lemma_tables_agree(s: Seq<Landmark>, t: Seq<Landmark>, i: int)
    requires
        0 <= i <= s.len(),
        i <= t.len(),
        forall|j: int| 0 <= j < i ==> s[j] == t[j],
    ensures
        tables_in(s, i) == tables_in(t, i),
    decreases i,
{
    if i > 0 {
        lemma_tables_agree(s, t, i - 1);
    }
}

/// More landmarks never take fewer tables.
pub proof fn lemma_tables_grow(s: Seq<Landmark>, i: int, j: int)
    requires
        0 <= i <= j,
    ensures
        0 <= tables_in(s, i) <= tables_in(s, j),
    decreases j,
{
    if i < j {
        lemma_tables_grow(s, i, j - 1);
    } else if j > 0 {
        lemma_tables_grow(s, i - 1, j - 1);
    }
}

/// More elements never count for fewer bytes.
pub proof fn lemma_sizes_grow(b: Seq<u8>, start: int, i: int, j: int)
    requires
        0 <= i <= j,
    ensures
        0 <= elements_size(b, start, i) <= elements_size(b, start, j),
    decreases j,
{
    if i < j {
        lemma_sizes_grow(b, start, i, j - 1);
    } else if j > 0 {
        lemma_sizes_grow(b, start, i - 1, j - 1);
    }
}

/// Reads the availability table at `a`.
fn read_availability(buf: &[u8], a: usize) -> (r: Option<Availability>)
    ensures
        r == availability_at(buf@, a as int),
{
    let v: usize = match find_vtable(buf, a) {
        Some(v) => v,
        None => {
            return None;
        },
    };
    let visibility: u32 = match read_scalar(buf, a, v, SLOT_VISIBILITY) {
        Some(bits) => bits,
        None => {
            return None;
        },
    };
    let presence: u32 = match read_scalar(buf, a, v, SLOT_PRESENCE) {
        Some(bits) => bits,
        None => {
            return None;
        },
    };
    Some(Availability { visibility, presence })
}

/// Reads the landmark table at `l`.
fn read_landmark(buf: &[u8], l: usize) -> (r: Option<Landmark>)
    ensures
        r == landmark_at(buf@, l as int),
{
    let v: usize = match find_vtable(buf, l) {
        Some(v) => v,
        None => {
            return None;
        },
    };
    let x: u32 = match read_scalar(buf, l, v, SLOT_X) {
        Some(bits) => bits,
        None => {
            return None;
        },
    };
    let y: u32 = match read_scalar(buf, l, v, SLOT_Y) {
        Some(bits) => bits,
        None => {
            return None;
        },
    };
    let z: u32 = match read_scalar(buf, l, v, SLOT_Z) {
        Some(bits) => bits,
        None => {
            return None;
        },
    };
    let availability: Option<Availability> = match find_field(buf, l, v, SLOT_AVAILABILITY) {
        Field::Absent => None,
        Field::At(p) => {
            let a: usize = match follow_offset(buf, p) {
                Some(a) => a,
                None => {
                    return None;
                },
            };
            match read_availability(buf, a) {
                Some(av) => Some(av),
                None => {
                    return None;
                },
            }
        },
        Field::Broken => {
            return None;
        },
    };
    Some(Landmark { x, y, z, availability })
}

/// Counts the bytes that the walk looks at in the availability table at
/// `a`.
fn availability_cost(buf: &[u8], a: usize) -> (c: u64)
    ensures
        c == availability_size(buf@, a as int),
        c <= 65553,
{
    match find_vtable(buf, a) {
        Some(v) => table_cost(buf, a, v) + scalar_cost(buf, a, v, SLOT_VISIBILITY) + scalar_cost(
            buf,
            a,
            v,
            SLOT_PRESENCE,
        ),
        None => 0,
    }
}

/// Counts the bytes that the walk looks at in the landmark table at `l` and
/// in what it refers to.
fn landmark_cost(buf: &[u8], l: usize) -> (c: u64)
    ensures
        c == landmark_size(buf@, l as int),
        c <= 131118,
{
    let v: usize = match find_vtable(buf, l) {
        Some(v) => v,
        None => {
            return 0;
        },
    };
    let reference: u64 = match find_field(buf, l, v, SLOT_AVAILABILITY) {
        Field::At(p) => match follow_offset(buf, p) {
            Some(a) => 4 + availability_cost(buf, a),
            None => 4,
        },
        _ => 0,
    };
    table_cost(buf, l, v) + scalar_cost(buf, l, v, SLOT_X) + scalar_cost(buf, l, v, SLOT_Y)
        + scalar_cost(buf, l, v, SLOT_Z) + slot_cost(buf, l, v, SLOT_AVAILABILITY) + reference
}

/// Reads the `n` landmarks that the vector starting at `start` refers to,
/// and gives up as soon as they take more than `budget` tables or count for
/// more than `room` bytes.
fn read_elements(buf: &[u8], start: usize, n: usize, budget: usize, room: u64) -> (r: Option<
    Vec<Landmark>,
>)
    requires
        start + 4 * n <= buf@.len(),
        room <= MAX_APPARENT_SIZE,
    ensures
        match r {
            Some(out) => {
                &&& elements_of(buf@, start as int, n as int) == Some(out@)
                &&& tables_in(out@, n as int) <= budget
                &&& elements_size(buf@, start as int, n as int) <= room
            },
            None => match elements_of(buf@, start as int, n as int) {
                Some(s) => tables_in(s, n as int) > budget || elements_size(
                    buf@,
                    start as int,
                    n as int,
                ) > room,
                None => true,
            },
        },
{
    let len: usize = buf.len();
    let mut out: Vec<Landmark> = Vec::new();
    let mut used: usize = 0;
    let mut spent: u64 = 0;
    let mut i: usize = 0;
    while i < n
        invariant
            i <= n,
            len == buf@.len(),
            start + 4 * n <= len,
            out@.len() == i,
            forall|j: int| 0 <= j < i ==> #[trigger] element_at(buf@, start as int, j) == Some(out@[j]),
            used == tables_in(out@, i as int),
            used <= budget,
            spent == elements_size(buf@, start as int, i as int),
            spent <= room <= MAX_APPARENT_SIZE,
        decreases n - i,
    {
        let l: usize = match follow_offset(buf, start + 4 * i) {
            Some(l) => l,
            None => {
                assert(element_at(buf@, start as int, i as int).is_none());
                return None;
            },
        };
        let landmark: Landmark = match read_landmark(buf, l) {
            Some(landmark) => landmark,
            None => {
                assert(element_at(buf@, start as int, i as int).is_none());
                return None;
            },
        };
        let cost: usize = if landmark.availability.is_some() {
            2
        } else {
            1
        };
        let weight: u64 = 4 + landmark_cost(buf, l);
        if weight > room - spent {
            proof {
                lemma_sizes_grow(buf@, start as int, i as int + 1, n as int);
            }
            return None;
        }
        let ghost before = out@;
        if cost > budget - used {
            proof {
                match elements_of(buf@, start as int, n as int) {
                    Some(s) => {
                        assert(s[i as int] == element_at(buf@, start as int, i as int).unwrap());
                        assert forall|j: int| 0 <= j < i implies s[j] == before[j] by {
                            assert(s[j] == element_at(buf@, start as int, j).unwrap());
                        }
                        lemma_tables_agree(s, before, i as int);
                        lemma_tables_grow(s, i as int + 1, n as int);
                    },
                    None => {},
                }
            }
            return None;
        }
        out.push(landmark);
        proof {
            lemma_tables_agree(out@, before, i as int);
        }
        used = used + cost;
        spent = spent + weight;
        i += 1;
    }
    assert(out@ =~= Seq::new(n as nat, |j: int| element_at(buf@, start as int, j).unwrap()));
    Some(out)
}

/// Reads the pose table at `t`, and gives up when the envelope around it
/// would hold more than [`MAX_TABLES`] tables or when the pose counts for
/// more than `room` bytes.
fn read_pose(buf: &[u8], t: usize, room: u64) -> (r: Option<DetectionResult>)
    requires
        room <= MAX_APPARENT_SIZE,
    ensures
        match r {
            Some(d) => {
                &&& pose_at(buf@, t as int) == Some(d@)
                &&& table_count(d@) <= MAX_TABLES
                &&& pose_size(buf@, t as int) <= room
            },
            None => match pose_at(buf@, t as int) {
                Some(s) => table_count(s) > MAX_TABLES || pose_size(buf@, t as int) > room,
                None => true,
            },
        },
{
    let v: usize = match find_vtable(buf, t) {
        Some(v) => v,
        None => {
            return None;
        },
    };
    let fixed: u64 = table_cost(buf, t, v) + slot_cost(buf, t, v, SLOT_LANDMARKS);
    match find_field(buf, t, v, SLOT_LANDMARKS) {
        Field::Absent => if fixed <= room {
            Some(DetectionResult { landmarks: Vec::new() })
        } else {
            None
        },
        Field::At(p) => {
            let q: usize = match follow_offset(buf, p) {
                Some(q) => q,
                None => {
                    return None;
                },
            };
            let (start, n) = match find_vector(buf, q) {
                Some(header) => header,
                None => {
                    return None;
                },
            };
            let whole: u64 = 8 + 4 * (n as u64);
            if fixed > room || whole > room - fixed {
                proof {
                    lemma_sizes_grow(buf@, start as int, 0, n as int);
                }
                return None;
            }
            match read_elements(buf, start, n, MAX_TABLES - 2, room - fixed - whole) {
                Some(landmarks) => Some(DetectionResult { landmarks }),
                None => None,
            }
        },
        Field::Broken => None,
    }
}

/// Tells what a buffer turns out to be: a pose envelope with its detection,
/// an empty envelope, an envelope with a tag that the decoder does not read,
/// or no well-formed envelope at all.
pub fn classify(buf: &[u8]) -> (e: Envelope)
    ensures
        e@ == envelope_of(buf@),
{
    let root: usize = match follow_offset(buf, 0) {
        Some(root) => root,
        None => {
            return Envelope::Malformed;
        },
    };
    let v: usize = match find_vtable(buf, root) {
        Some(v) => v,
        None => {
            return Envelope::Malformed;
        },
    };
    let key: Field<usize> = find_field(buf, root, v, SLOT_PAYLOAD_TYPE);
    let value: Field<usize> = find_field(buf, root, v, SLOT_PAYLOAD);
    let (k, p) = match (key, value) {
        (Field::At(k), Field::At(p)) => (k, p),
        (Field::At(k), Field::Broken) => {
            let tag: u8 = buf[k];
            if tag == TAG_POSE || tag == TAG_EMPTY {
                return Envelope::Malformed;
            }
            return Envelope::Unknown(tag);
        },
        (Field::Absent, Field::Absent) => {
            return Envelope::Unknown(0);
        },
        _ => {
            return Envelope::Malformed;
        },
    };
    let tag: u8 = buf[k];
    if tag == TAG_POSE {
        let t: usize = match follow_offset(buf, p) {
            Some(t) => t,
            None => {
                return Envelope::Malformed;
            },
        };
        let before: u64 = 4 + table_cost(buf, root, v) + slot_cost(buf, root, v, SLOT_PAYLOAD)
            + slot_cost(buf, root, v, SLOT_PAYLOAD_TYPE) + 5;
        match read_pose(buf, t, MAX_APPARENT_SIZE - before) {
            Some(d) => Envelope::Pose(d),
            None => Envelope::Malformed,
        }
    } else if tag == TAG_EMPTY {
        let t: usize = match follow_offset(buf, p) {
            Some(t) => t,
            None => {
                return Envelope::Malformed;
            },
        };
        match find_vtable(buf, t) {
            Some(_) => Envelope::Empty,
            None => Envelope::Malformed,
        }
    } else {
        Envelope::Unknown(tag)
    }
}

/// Decodes one envelope.
///
/// Returns the detection of a well-formed pose envelope and nothing for
/// every other buffer: one that is malformed, one with the empty tag or an
/// unknown tag, or one without a payload. [`classify`] tells these apart.
pub fn parse(buf: &[u8]) -> (r: Option<DetectionResult>)
    ensures
        match r {
            Some(d) => decode(buf@) == Some(d@),
            None => decode(buf@).is_none(),
        },
{
    match classify(buf) {
        Envelope::Pose(d) => Some(d),
        _ => None,
    }
}

} // verus!

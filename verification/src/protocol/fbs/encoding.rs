//! A reference encoding of detections, and the proof that the decoder reads
//! it back.
//!
//! The encoding is a sequence of 32-bit little-endian words: eleven words
//! of header (root offset, root table, pose table, vector length), one word
//! per landmark that points to the landmark's table, and one block of
//! thirteen words per landmark that holds the landmark's table and its
//! availability table. It is one of many byte layouts that the format
//! admits.

use crate::protocol::fbs::detection::availability_at;
use crate::protocol::fbs::detection::availability_of;
use crate::protocol::fbs::detection::decode;
use crate::protocol::fbs::detection::availability_size;
use crate::protocol::fbs::detection::element_size;
use crate::protocol::fbs::detection::elements_size;
use crate::protocol::fbs::detection::envelope_of;
use crate::protocol::fbs::detection::landmark_size;
use crate::protocol::fbs::detection::pose_size;
use crate::protocol::fbs::detection::root_size;
use crate::protocol::fbs::detection::tables_in;
use crate::protocol::fbs::detection::MAX_APPARENT_SIZE;
use crate::protocol::fbs::detection::payload_of;
use crate::protocol::fbs::detection::table_count;
use crate::protocol::fbs::detection::EnvelopeView;
use crate::protocol::fbs::detection::MAX_TABLES;
use crate::protocol::fbs::detection::element_at;
use crate::protocol::fbs::detection::elements_of;
use crate::protocol::fbs::detection::landmark_at;
use crate::protocol::fbs::detection::pose_at;
use crate::protocol::fbs::detection::Landmark;
use crate::protocol::fbs::detection::TAG_POSE;
use crate::protocol::fbs::wire::field_of;
use crate::protocol::fbs::wire::follow;
use crate::protocol::fbs::wire::has16;
use crate::protocol::fbs::wire::has32;
use crate::protocol::fbs::wire::le16;
use crate::protocol::fbs::wire::le32;
use crate::protocol::fbs::wire::scalar_of;
use crate::protocol::fbs::wire::table_size;
use crate::protocol::fbs::wire::vector_of;
use crate::protocol::fbs::wire::vtable_of;
use crate::protocol::fbs::wire::Field;
use vstd::prelude::*;

verus! {

/// Byte `k` of the word `w` in little-endian order.
pub open spec fn le_byte(w: int, k: int) -> u8 {
    if k == 0 {
        (w % 256) as u8
    } else if k == 1 {
        ((w / 256) % 256) as u8
    } else if k == 2 {
        ((w / 65536) % 256) as u8
    } else {
        ((w / 16777216) % 256) as u8
    }
}

/// The bytes of a sequence of words.
#[verifier::opaque]
pub open spec fn bytes_of(ws: Seq<int>) -> Seq<u8> {
    Seq::new(4 * ws.len(), |j: int| le_byte(ws[j / 4], j % 4))
}

/// The word made of two 16-bit halves.
pub open spec fn pack16(lo: int, hi: int) -> int {
    lo + 65536 * hi
}

/// Word `i` of the header of a detection with `n` landmarks.
pub open spec fn header_word(n: int, i: int) -> int {
    if i == 0 {
        12
    } else if i == 1 {
        pack16(8, 12)
    } else if i == 2 {
        pack16(8, 4)
    } else if i == 3 {
        8
    } else if i == 4 {
        16
    } else if i == 5 {
        TAG_POSE as int
    } else if i == 6 {
        pack16(6, 8)
    } else if i == 7 {
        pack16(4, 0)
    } else if i == 8 {
        8
    } else if i == 9 {
        4
    } else {
        n
    }
}

/// The word index at which the block of landmark `i` starts.
pub open spec fn block_start(n: int, i: int) -> int {
    11 + n + 13 * i
}

/// The offset stored in vector element `i`: the distance from the element
/// to the table of landmark `i`.
pub open spec fn element_word(n: int, i: int) -> int {
    4 * (block_start(n, i) + 3) - 4 * (11 + i)
}

/// Word `k` of the block of a landmark.
pub open spec fn block_word(lm: Landmark, k: int) -> int {
    if k == 0 {
        pack16(12, 20)
    } else if k == 1 {
        pack16(4, 8)
    } else if k == 2 {
        pack16(
            12,
            if lm.availability is Some {
                16
            } else {
                0
            },
        )
    } else if k == 3 {
        12
    } else if k == 4 {
        lm.x as int
    } else if k == 5 {
        lm.y as int
    } else if k == 6 {
        lm.z as int
    } else if k == 7 {
        12
    } else if k == 8 {
        pack16(8, 12)
    } else if k == 9 {
        pack16(4, 8)
    } else if k == 10 {
        8
    } else if k == 11 {
        match lm.availability {
            Some(av) => av.visibility as int,
            None => 0,
        }
    } else {
        match lm.availability {
            Some(av) => av.presence as int,
            None => 0,
        }
    }
}

/// Word `i` of the encoding of `s`.
pub open spec fn word_at(s: Seq<Landmark>, i: int) -> int {
    let n = s.len() as int;
    if i < 11 {
        header_word(n, i)
    } else if i < 11 + n {
        element_word(n, i - 11)
    } else {
        block_word(
            s[(i - 11 - n) / 13],
            (i - 11 - n) % 13,
        )
    }
}

/// The words of the encoding of `s`.
#[verifier::opaque]
pub open spec fn words(s: Seq<Landmark>) -> Seq<int> {
    Seq::new((11 + 14 * s.len()) as nat, |i: int| word_at(s, i))
}

/// The reference encoding of the landmarks `s` as a pose envelope.
pub open spec fn encode(s: Seq<Landmark>) -> Seq<u8> {
    bytes_of(words(s))
}

/// The encoding of the landmarks fits the 32-bit offsets of the format.
pub open spec fn fits(s: Seq<Landmark>) -> bool {
    4 * (11 + 14 * s.len()) <= u32::MAX
}

/// The landmarks can travel in an envelope: their encoding fits the 32-bit
/// offsets of the format and holds no more tables than an envelope may. An
/// encoding with so few tables stays far below the limit on bytes.
pub open spec fn encodable(s: Seq<Landmark>) -> bool {
    fits(s) && table_count(s) <= MAX_TABLES
}

/// What the bytes of one word read as.
proof fn lemma_word(ws: Seq<int>, i: int)
    requires
        0 <= i < ws.len(),
        0 <= ws[i] < 0x1_0000_0000,
    ensures
        bytes_of(ws).len() == 4 * ws.len(),
        has32(bytes_of(ws), 4 * i),
        has16(bytes_of(ws), 4 * i),
        has16(bytes_of(ws), 4 * i + 2),
        le32(bytes_of(ws), 4 * i) == ws[i],
        le16(bytes_of(ws), 4 * i) == ws[i] % 65536,
        le16(bytes_of(ws), 4 * i + 2) == ws[i] / 65536,
        bytes_of(ws)[4 * i] == ws[i] % 256,
{
    reveal(bytes_of);
    assert(bytes_of(ws)[4 * i + 1] == le_byte(ws[i], 1));
}

/// What the bytes of word `i` of an encoding read as.
proof fn lemma_encoded_word(s: Seq<Landmark>, i: int)
    requires
        fits(s),
        0 <= i < 11 + 14 * s.len(),
    ensures
        encode(s).len() == 4 * (11 + 14 * s.len()),
        0 <= word_at(s, i) < 0x1_0000_0000,
        has32(encode(s), 4 * i),
        has16(encode(s), 4 * i),
        has16(encode(s), 4 * i + 2),
        le32(encode(s), 4 * i) == word_at(s, i),
        le16(encode(s), 4 * i) == word_at(s, i) % 65536,
        le16(encode(s), 4 * i + 2) == word_at(s, i) / 65536,
        encode(s)[4 * i] == word_at(s, i) % 256,
{
    reveal(words);
    lemma_word(words(s), i);
}

/// Word `k` of the block of landmark `i` stands where the layout puts it.
proof fn lemma_block_word(s: Seq<Landmark>, i: int, k: int)
    requires
        0 <= i < s.len(),
        0 <= k < 13,
    ensures
        word_at(s, block_start(s.len() as int, i) + k) == block_word(s[i], k),
        0 <= block_start(s.len() as int, i) + k < 11 + 14 * s.len(),
{
}

/// What the bytes of word `k` of the block of landmark `i` read as.
proof fn lemma_block_reads(s: Seq<Landmark>, i: int, k: int)
    requires
        fits(s),
        0 <= i < s.len(),
        0 <= k < 13,
    ensures
        has32(encode(s), 4 * (block_start(s.len() as int, i) + k)),
        has16(encode(s), 4 * (block_start(s.len() as int, i) + k)),
        has16(encode(s), 4 * (block_start(s.len() as int, i) + k) + 2),
        le32(encode(s), 4 * (block_start(s.len() as int, i) + k)) == block_word(s[i], k),
        le16(encode(s), 4 * (block_start(s.len() as int, i) + k)) == block_word(s[i], k) % 65536,
        le16(encode(s), 4 * (block_start(s.len() as int, i) + k) + 2) == block_word(s[i], k)
            / 65536,
{
    lemma_block_word(s, i, k);
    lemma_encoded_word(s, block_start(s.len() as int, i) + k);
}

/// The availability table in the block of landmark `i` reads as the
/// availability of that landmark.
proof fn lemma_availability_block(s: Seq<Landmark>, i: int)
    requires
        fits(s),
        0 <= i < s.len(),
        s[i].availability is Some,
    ensures
        availability_at(encode(s), 4 * (block_start(s.len() as int, i) + 10))
            == s[i].availability,
{
    lemma_encoded_word(s, 0);
    lemma_block_reads(s, i, 8);
    lemma_block_reads(s, i, 9);
    lemma_block_reads(s, i, 10);
    lemma_block_reads(s, i, 11);
    lemma_block_reads(s, i, 12);
    lemma_block_word(s, i, 12);
}

/// The table of landmark `i` refers to the offset table at the start of
/// its block.
proof fn lemma_landmark_vtable(s: Seq<Landmark>, i: int)
    requires
        fits(s),
        0 <= i < s.len(),
    ensures
        vtable_of(encode(s), 4 * (block_start(s.len() as int, i) + 3)) == Some(
            4 * block_start(s.len() as int, i),
        ),
{
    lemma_encoded_word(s, 0);
    lemma_block_reads(s, i, 0);
    lemma_block_reads(s, i, 3);
    lemma_block_word(s, i, 12);
}

/// The coordinates in the block of landmark `i` read as those of that
/// landmark.
proof fn lemma_landmark_scalars(s: Seq<Landmark>, i: int)
    requires
        fits(s),
        0 <= i < s.len(),
    ensures
        ({
            let b = encode(s);
            let start = block_start(s.len() as int, i);
            &&& scalar_of(b, 4 * (start + 3), 4 * start, 4) == Some(s[i].x)
            &&& scalar_of(b, 4 * (start + 3), 4 * start, 6) == Some(s[i].y)
            &&& scalar_of(b, 4 * (start + 3), 4 * start, 8) == Some(s[i].z)
        }),
{
    lemma_encoded_word(s, 0);
    lemma_block_reads(s, i, 0);
    lemma_block_reads(s, i, 1);
    lemma_block_reads(s, i, 2);
    lemma_block_reads(s, i, 4);
    lemma_block_reads(s, i, 5);
    lemma_block_reads(s, i, 6);
    lemma_block_word(s, i, 12);
}

/// The availability reference in the block of landmark `i` reads as the
/// availability of that landmark.
proof fn lemma_landmark_availability(s: Seq<Landmark>, i: int)
    requires
        fits(s),
        0 <= i < s.len(),
    ensures
        availability_of(
            encode(s),
            4 * (block_start(s.len() as int, i) + 3),
            4 * block_start(s.len() as int, i),
        ) == Some(s[i].availability),
{
    lemma_encoded_word(s, 0);
    lemma_block_reads(s, i, 0);
    lemma_block_reads(s, i, 2);
    lemma_block_reads(s, i, 7);
    lemma_block_word(s, i, 12);
    if s[i].availability is Some {
        lemma_availability_block(s, i);
    }
}

/// The table in the block of landmark `i` reads as that landmark.
proof fn lemma_landmark_block(s: Seq<Landmark>, i: int)
    requires
        fits(s),
        0 <= i < s.len(),
    ensures
        landmark_at(encode(s), 4 * (block_start(s.len() as int, i) + 3)) == Some(s[i]),
{
    lemma_landmark_vtable(s, i);
    lemma_landmark_scalars(s, i);
    lemma_landmark_availability(s, i);
}

/// Vector element `i` of an encoding refers to landmark `i`.
proof fn lemma_element(s: Seq<Landmark>, i: int)
    requires
        fits(s),
        0 <= i < s.len(),
    ensures
        element_at(encode(s), 44, i) == Some(s[i]),
{
    lemma_encoded_word(s, 11 + i);
    lemma_block_word(s, i, 3);
    lemma_landmark_block(s, i);
}

/// The vector of an encoding reads as the landmarks that were encoded.
proof fn lemma_elements(s: Seq<Landmark>)
    requires
        fits(s),
    ensures
        elements_of(encode(s), 44, s.len() as int) == Some(s),
{
    assert forall|i: int| 0 <= i < s.len() implies (#[trigger] element_at(encode(s), 44, i))
        == Some(s[i]) by {
        lemma_element(s, i);
    }
}

/// The pose table of an encoding reads as the landmarks that were encoded.
proof fn lemma_pose(s: Seq<Landmark>)
    requires
        fits(s),
    ensures
        pose_at(encode(s), 32) == Some(s),
{
    lemma_encoded_word(s, 6);
    lemma_encoded_word(s, 7);
    lemma_encoded_word(s, 8);
    lemma_encoded_word(s, 9);
    lemma_encoded_word(s, 10);
    lemma_elements(s);
}

/// The walk looks at no more than 68 bytes for the landmark in block `i`.
proof fn lemma_landmark_size(s: Seq<Landmark>, i: int)
    requires
        fits(s),
        0 <= i < s.len(),
    ensures
        landmark_size(encode(s), 4 * (block_start(s.len() as int, i) + 3)) <= 68,
{
    let b = encode(s);
    let start = block_start(s.len() as int, i);
    let l = 4 * (start + 3);
    let v = 4 * start;
    lemma_landmark_vtable(s, i);
    lemma_encoded_word(s, 0);
    lemma_block_reads(s, i, 0);
    lemma_block_reads(s, i, 2);
    lemma_block_reads(s, i, 3);
    lemma_block_reads(s, i, 7);
    lemma_block_reads(s, i, 8);
    lemma_block_reads(s, i, 10);
    lemma_block_word(s, i, 12);
    assert(table_size(b, v) == 18);
    if s[i].availability is Some {
        assert(le16(b, v + 10) == 16);
        assert(field_of(b, l, v, 10) == Field::At(4 * (start + 7)));
        assert(follow(b, 4 * (start + 7)) == Some(4 * (start + 10)));
        assert(vtable_of(b, 4 * (start + 10)) == Some(4 * (start + 8)));
        assert(table_size(b, 4 * (start + 8)) == 14);
        assert(availability_size(b, 4 * (start + 10)) <= 26);
    } else {
        assert(le16(b, v + 10) == 0);
        assert(field_of(b, l, v, 10) == Field::<int>::Absent);
    }
}

/// The walk looks at no more than 72 bytes for each of the first `i`
/// elements of an encoding.
proof fn lemma_elements_size(s: Seq<Landmark>, i: int)
    requires
        fits(s),
        0 <= i <= s.len(),
    ensures
        elements_size(encode(s), 44, i) <= 72 * i,
    decreases i,
{
    if i > 0 {
        lemma_elements_size(s, i - 1);
        let k = i - 1;
        lemma_encoded_word(s, 11 + k);
        lemma_block_word(s, k, 3);
        assert(44 + 4 * k == 4 * (11 + k));
        assert(follow(encode(s), 44 + 4 * k) == Some(4 * (block_start(s.len() as int, k) + 3)));
        lemma_landmark_size(s, k);
        assert(element_size(encode(s), 44, k) <= 72);
    }
}

/// The walk looks at no more than 49 bytes and 76 more for each landmark in
/// an encoding.
proof fn lemma_apparent_size(s: Seq<Landmark>)
    requires
        fits(s),
    ensures
        root_size(encode(s), 4) + pose_size(encode(s), 32) <= 49 + 76 * s.len(),
{
    let b = encode(s);
    lemma_encoded_word(s, 1);
    lemma_encoded_word(s, 6);
    lemma_encoded_word(s, 7);
    lemma_encoded_word(s, 8);
    lemma_encoded_word(s, 9);
    lemma_encoded_word(s, 10);
    assert(table_size(b, 4) == 14);
    assert(vtable_of(b, 32) == Some(24int));
    assert(table_size(b, 24) == 12);
    assert(le16(b, 28) == 4);
    assert(field_of(b, 32, 24, 4) == Field::At(36int));
    assert(follow(b, 36) == Some(40int));
    assert(vector_of(b, 40) == Some((44int, s.len() as int)));
    lemma_elements_size(s, s.len() as int);
}

/// Every landmark takes at least one table.
proof fn lemma_tables_at_least(s: Seq<Landmark>, i: int)
    requires
        0 <= i,
    ensures
        tables_in(s, i) >= i,
    decreases i,
{
    if i > 0 {
        lemma_tables_at_least(s, i - 1);
    }
}

/// The root table of an encoding names a pose payload at the pose table.
proof fn lemma_root(s: Seq<Landmark>)
    requires
        fits(s),
    ensures
        follow(encode(s), 0) == Some(12int),
        vtable_of(encode(s), 12) == Some(4int),
        field_of(encode(s), 12, 4, 4) == Field::At(20int),
        field_of(encode(s), 12, 4, 6) == Field::At(16int),
        encode(s)[20] == TAG_POSE,
        follow(encode(s), 16) == Some(32int),
{
    lemma_encoded_word(s, 0);
    lemma_encoded_word(s, 1);
    lemma_encoded_word(s, 2);
    lemma_encoded_word(s, 3);
    lemma_encoded_word(s, 4);
    lemma_encoded_word(s, 5);
}

/// Decoding undoes encoding: a detection with any number of landmarks, each
/// with or without availability, written in the reference encoding, is told
/// to be a pose envelope and decodes to the same landmarks, equal in every
/// field and in the same order.
pub proof fn lemma_round_trip(s: Seq<Landmark>)
    requires
        encodable(s),
    ensures
        envelope_of(encode(s)) == EnvelopeView::Pose(s),
        decode(encode(s)) == Some(s),
{
    lemma_root(s);
    lemma_pose(s);
    lemma_apparent_size(s);
    lemma_tables_at_least(s, s.len() as int);
    assert(root_size(encode(s), 4) + pose_size(encode(s), 32) <= MAX_APPARENT_SIZE);
    assert(payload_of(encode(s), TAG_POSE, 16, 4) == EnvelopeView::Pose(s));
}

} // verus!

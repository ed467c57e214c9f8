//! Little-endian scalars and table navigation inside an envelope buffer.
//!
//! Positions are mathematical integers in the specifications, so that a
//! position past the end of the buffer is simply out of range rather than an
//! overflow.

use vstd::prelude::*;

verus! {

/// The unsigned 16-bit value stored little-endian at `p`.
pub open spec fn le16(b: Seq<u8>, p: int) -> int {
    b[p] as int + 256 * (b[p + 1] as int)
}

/// The unsigned 32-bit value stored little-endian at `p`.
pub open spec fn le32(b: Seq<u8>, p: int) -> int {
    b[p] as int + 256 * (b[p + 1] as int) + 65536 * (b[p + 2] as int) + 16777216 * (b[p + 3] as int)
}

/// A 16-bit scalar may be read at `p`: the position is aligned and the two
/// bytes lie inside the buffer.
pub open spec fn has16(b: Seq<u8>, p: int) -> bool {
    0 <= p && p % 2 == 0 && p + 2 <= b.len()
}

/// A 32-bit scalar may be read at `p`: the position is aligned and the four
/// bytes lie inside the buffer.
pub open spec fn has32(b: Seq<u8>, p: int) -> bool {
    0 <= p && p % 4 == 0 && p + 4 <= b.len()
}

/// Reads the 16-bit scalar at `pos`.
pub fn read16(buf: &[u8], pos: usize) -> (r: u16)
    requires
        pos + 2 <= buf@.len(),
    ensures
        r as int == le16(buf@, pos as int),
{
    let lo: u16 = buf[pos] as u16;
    let hi: u16 = buf[pos + 1] as u16;
    lo + 256 * hi
}

/// Reads the 32-bit scalar at `pos`.
pub fn read32(buf: &[u8], pos: usize) -> (r: u32)
    requires
        pos + 4 <= buf@.len(),
    ensures
        r as int == le32(buf@, pos as int),
{
    let b0: u32 = buf[pos] as u32;
    let b1: u32 = buf[pos + 1] as u32;
    let b2: u32 = buf[pos + 2] as u32;
    let b3: u32 = buf[pos + 3] as u32;
    b0 + 256 * b1 + 65536 * b2 + 16777216 * b3
}

/// What a lookup in an offset table finds for one field.
pub enum Field<P> {
    /// The table does not carry the field.
    Absent,
    /// The field's data starts at this position.
    At(P),
    /// The field is recorded at a position that no read can reach.
    Broken,
}

/// The signed 32-bit value stored little-endian at `p`.
pub open spec fn le32_signed(b: Seq<u8>, p: int) -> int {
    if le32(b, p) >= 0x8000_0000 {
        le32(b, p) - 0x1_0000_0000
    } else {
        le32(b, p)
    }
}

/// The position of the offset table that the table at `t` refers to.
///
/// A table starts with a signed distance back to its offset table. The
/// offset table starts with its own length in bytes; the whole of it must lie
/// inside the buffer, aligned to two bytes.
pub open spec fn vtable_of(b: Seq<u8>, t: int) -> Option<int> {
    let v = t - le32_signed(b, t);
    if has32(b, t) && v < b.len() && has16(b, v) && le16(b, v) % 2 == 0 && v + le16(b, v)
        <= b.len() {
        Some(v)
    } else {
        None
    }
}

/// Where the field registered under `slot` lives, for the table at `t` whose
/// offset table is at `v`. A slot past the end of the offset table, or one
/// holding zero, means that the field is absent.
pub open spec fn field_of(b: Seq<u8>, t: int, v: int, slot: int) -> Field<int> {
    if slot < le16(b, v) && le16(b, v + slot) > 0 {
        if t + le16(b, v + slot) < b.len() {
            Field::At(t + le16(b, v + slot))
        } else {
            Field::Broken
        }
    } else {
        Field::Absent
    }
}

/// The position that the unsigned offset stored at `p` points to, when the
/// offset can be read and its target lies inside the buffer.
pub open spec fn follow(b: Seq<u8>, p: int) -> Option<int> {
    if has32(b, p) && p + le32(b, p) < b.len() {
        Some(p + le32(b, p))
    } else {
        None
    }
}

/// The bits of the 32-bit scalar field under `slot`: zero when the field is
/// absent, nothing when its four bytes cannot be read.
pub open spec fn scalar_of(b: Seq<u8>, t: int, v: int, slot: int) -> Option<u32> {
    match field_of(b, t, v, slot) {
        Field::Absent => Some(0u32),
        Field::At(p) => if has32(b, p) {
            Some(le32(b, p) as u32)
        } else {
            None
        },
        Field::Broken => None,
    }
}

/// The first element position and the element count of the vector of
/// offsets whose header is at `q`, when header and elements lie inside the
/// buffer.
pub open spec fn vector_of(b: Seq<u8>, q: int) -> Option<(int, int)> {
    if has32(b, q) && q + 4 + 4 * le32(b, q) <= b.len() {
        Some((q + 4, le32(b, q)))
    } else {
        None
    }
}

/// Tells whether a 16-bit scalar may be read at `p`.
pub fn can_read16(buf: &[u8], p: usize) -> (ok: bool)
    ensures
        ok == has16(buf@, p as int),
{
    p % 2 == 0 && p <= buf.len() && buf.len() - p >= 2
}

/// Tells whether a 32-bit scalar may be read at `p`.
pub fn can_read32(buf: &[u8], p: usize) -> (ok: bool)
    ensures
        ok == has32(buf@, p as int),
{
    p % 4 == 0 && p <= buf.len() && buf.len() - p >= 4
}

/// Finds the offset table of the table at `t`.
pub fn find_vtable(buf: &[u8], t: usize) -> (r: Option<usize>)
    ensures
        match r {
            Some(v) => vtable_of(buf@, t as int) == Some(v as int),
            None => vtable_of(buf@, t as int).is_none(),
        },
{
    if !can_read32(buf, t) {
        return None;
    }
    let raw: u32 = read32(buf, t);
    let v: usize;
    if raw < 0x8000_0000 {
        if raw as usize > t {
            return None;
        }
        v = t - raw as usize;
    } else {
        let back: u32 = (0xFFFF_FFFF - raw) + 1;
        if back as usize >= buf.len() - t {
            return None;
        }
        v = t + back as usize;
    }
    if !can_read16(buf, v) {
        return None;
    }
    let vlen: u16 = read16(buf, v);
    if vlen % 2 != 0 || vlen as usize > buf.len() - v {
        return None;
    }
    Some(v)
}

/// Looks the field under `slot` up in the offset table at `v`.
pub fn find_field(buf: &[u8], t: usize, v: usize, slot: u16) -> (r: Field<usize>)
    requires
        vtable_of(buf@, t as int) == Some(v as int),
        slot % 2 == 0,
    ensures
        match r {
            Field::Absent => field_of(buf@, t as int, v as int, slot as int) == Field::<int>::Absent,
            Field::At(p) => field_of(buf@, t as int, v as int, slot as int) == Field::At(p as int),
            Field::Broken => field_of(buf@, t as int, v as int, slot as int) == Field::<int>::Broken,
        },
{
    let vlen: u16 = read16(buf, v);
    if slot >= vlen {
        return Field::Absent;
    }
    let len: usize = buf.len();
    assert(slot as int + 2 <= vlen as int && v as int + vlen as int <= len as int);
    let off: u16 = read16(buf, v + slot as usize);
    if off == 0 {
        Field::Absent
    } else if off as usize >= len - t {
        Field::Broken
    } else {
        Field::At(t + off as usize)
    }
}

/// Follows the unsigned offset stored at `p`.
pub fn follow_offset(buf: &[u8], p: usize) -> (r: Option<usize>)
    ensures
        match r {
            Some(q) => follow(buf@, p as int) == Some(q as int),
            None => follow(buf@, p as int).is_none(),
        },
{
    if !can_read32(buf, p) {
        return None;
    }
    let off: u32 = read32(buf, p);
    if off as usize >= buf.len() - p {
        None
    } else {
        Some(p + off as usize)
    }
}

/// Reads the 32-bit scalar field under `slot`.
pub fn read_scalar(buf: &[u8], t: usize, v: usize, slot: u16) -> (r: Option<u32>)
    requires
        vtable_of(buf@, t as int) == Some(v as int),
        slot % 2 == 0,
    ensures
        r == scalar_of(buf@, t as int, v as int, slot as int),
{
    match find_field(buf, t, v, slot) {
        Field::Absent => Some(0),
        Field::At(p) => {
            if can_read32(buf, p) {
                Some(read32(buf, p))
            } else {
                None
            }
        },
        Field::Broken => None,
    }
}

/// The bytes that a visit of a table counts for the offset table at `v`:
/// the table's own reference, the length field, and the offset table
/// itself.
pub open spec fn table_size(b: Seq<u8>, v: int) -> int {
    6 + le16(b, v)
}

/// The bytes that a lookup of `slot` in the offset table at `v` counts: the
/// slot itself, unless it lies past the end of the offset table.
pub open spec fn slot_size(b: Seq<u8>, v: int, slot: int) -> int {
    if slot < le16(b, v) {
        2
    } else {
        0
    }
}

/// The bytes that reading the 32-bit scalar field under `slot` counts: the
/// lookup and, where the field is there, its four bytes.
pub open spec fn scalar_size(b: Seq<u8>, t: int, v: int, slot: int) -> int {
    slot_size(b, v, slot) + if field_of(b, t, v, slot) is At {
        4int
    } else {
        0int
    }
}

/// Counts the bytes of a visit of the table at `t`.
pub fn table_cost(buf: &[u8], t: usize, v: usize) -> (c: u64)
    requires
        vtable_of(buf@, t as int) == Some(v as int),
    ensures
        c == table_size(buf@, v as int),
        6 <= c <= 65541,
{
    let vlen: u16 = read16(buf, v);
    6 + vlen as u64
}

/// Counts the bytes of a lookup of `slot`.
pub fn slot_cost(buf: &[u8], t: usize, v: usize, slot: u16) -> (c: u64)
    requires
        vtable_of(buf@, t as int) == Some(v as int),
    ensures
        c == slot_size(buf@, v as int, slot as int),
        c <= 2,
{
    let vlen: u16 = read16(buf, v);
    if slot < vlen {
        2
    } else {
        0
    }
}

/// Counts the bytes of reading the 32-bit scalar field under `slot`.
pub fn scalar_cost(buf: &[u8], t: usize, v: usize, slot: u16) -> (c: u64)
    requires
        vtable_of(buf@, t as int) == Some(v as int),
        slot % 2 == 0,
    ensures
        c == scalar_size(buf@, t as int, v as int, slot as int),
        c <= 6,
{
    let lookup: u64 = slot_cost(buf, t, v, slot);
    match find_field(buf, t, v, slot) {
        Field::At(_) => lookup + 4,
        _ => lookup,
    }
}

/// Reads the header of the vector of offsets at `q`.
pub fn find_vector(buf: &[u8], q: usize) -> (r: Option<(usize, usize)>)
    ensures
        match r {
            Some((start, n)) => vector_of(buf@, q as int) == Some((start as int, n as int)),
            None => vector_of(buf@, q as int).is_none(),
        },
{
    if !can_read32(buf, q) {
        return None;
    }
    let n: u32 = read32(buf, q);
    let room: usize = (buf.len() - q - 4) / 4;
    if n as usize > room {
        None
    } else {
        Some((q + 4, n as usize))
    }
}

} // verus!

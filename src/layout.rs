use vstd::prelude::*;

verus! {

/// Size in bytes of the image header that opens every image.
pub const HEADER_SIZE: usize = 24;

/// Offset of the little-endian entry-point address inside the header.
pub const ENTRY_OFFSET: usize = 0;

/// Offset of the one-byte segment count inside the header.
pub const SEGMENT_COUNT_OFFSET: usize = 4;

/// Size in bytes of the header in front of each segment's payload.
pub const SEGMENT_HEADER_SIZE: usize = 8;

/// The unsigned value of the four bytes at `at`, least significant first.
pub open spec fn le_value(b: Seq<u8>, at: int) -> int {
    b[at] as int + 256 * b[at + 1] as int + 65536 * b[at + 2] as int + 16777216 * b[at + 3] as int
}

/// The little-endian `u32` stored at `at`.
pub open spec fn le_u32(b: Seq<u8>, at: int) -> u32 {
    le_value(b, at) as u32
}

/// What a decoded segment stands for: its load address and its payload bytes.
pub struct SegmentModel {
    pub address: u32,
    pub data: Seq<u8>,
}

/// The entry point recorded in the header of `b`.
pub open spec fn entry_of(b: Seq<u8>) -> u32 {
    le_u32(b, ENTRY_OFFSET as int)
}

/// The number of segment records that the header of `b` announces.
pub open spec fn segment_count_of(b: Seq<u8>) -> u8 {
    b[SEGMENT_COUNT_OFFSET as int]
}

/// The payload length declared by the record that starts at `pos`.
pub open spec fn record_length(b: Seq<u8>, pos: int) -> u32 {
    le_u32(b, pos + 4)
}

/// The offset just past the record (sub-header and payload) that starts at `pos`.
pub open spec fn record_end(b: Seq<u8>, pos: int) -> int {
    pos + SEGMENT_HEADER_SIZE + record_length(b, pos)
}

/// The segment described by the record that starts at `pos`.
pub open spec fn segment_at(b: Seq<u8>, pos: int) -> SegmentModel {
    SegmentModel {
        address: le_u32(b, pos),
        data: b.subrange(pos + SEGMENT_HEADER_SIZE, record_end(b, pos)),
    }
}

/// Whether `n` records, laid back to back from `pos`, all lie inside `b`.
pub open spec fn records_fit(b: Seq<u8>, pos: int, n: nat) -> bool
    decreases n,
{
    n == 0 || (pos + SEGMENT_HEADER_SIZE <= b.len() && record_end(b, pos) <= b.len()
        && records_fit(b, record_end(b, pos), (n - 1) as nat))
}

/// The offset just past `n` back-to-back records starting at `pos`.
pub open spec fn records_end(b: Seq<u8>, pos: int, n: nat) -> int
    decreases n,
{
    if n == 0 {
        pos
    } else {
        records_end(b, record_end(b, pos), (n - 1) as nat)
    }
}

/// The segments of `n` back-to-back records starting at `pos`, in file order.
pub open spec fn segments_from(b: Seq<u8>, pos: int, n: nat) -> Seq<SegmentModel>
    decreases n,
{
    if n == 0 {
        Seq::empty()
    } else {
        seq![segment_at(b, pos)] + segments_from(b, record_end(b, pos), (n - 1) as nat)
    }
}

/// Whether `b` holds a whole header and every segment record it announces.
pub open spec fn well_formed(b: Seq<u8>) -> bool {
    b.len() >= HEADER_SIZE && records_fit(b, HEADER_SIZE as int, segment_count_of(b) as nat)
}

/// The bytes that `segs` take up in an image: each payload with its sub-header.
pub open spec fn span_of(segs: Seq<SegmentModel>) -> int
    decreases segs.len(),
{
    if segs.len() == 0 {
        0
    } else {
        SEGMENT_HEADER_SIZE + segs[0].data.len() + span_of(segs.drop_first())
    }
}

/// Reads the little-endian `u32` at offset `at`.
pub fn read_u32_le(b: &[u8], at: usize) -> (r: u32)
    requires
        at + 4 <= b@.len(),
    ensures
        r == le_u32(b@, at as int),
        r as int == le_value(b@, at as int),
{
    let b0 = b[at] as u32;
    let b1 = b[at + 1] as u32;
    let b2 = b[at + 2] as u32;
    let b3 = b[at + 3] as u32;
    assert(b0 + 256 * b1 + 65536 * b2 + 16777216 * b3 <= 0xffff_ffff) by (nonlinear_arith)
        requires
            b0 <= 255,
            b1 <= 255,
            b2 <= 255,
            b3 <= 255,
    ;
    b0 + 256 * b1 + 65536 * b2 + 16777216 * b3
}

} // verus!

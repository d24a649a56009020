use vstd::prelude::*;
use crate::image::{advanced, outputs, step, stream_start, stream_stopped, stream_wf, ImageError, StepItem, StreamModel};
use crate::layout::{
    entry_of, record_end, record_length, records_end, records_fit, segment_at, segment_count_of,
    segments_from, span_of, well_formed, SegmentModel, HEADER_SIZE, SEGMENT_HEADER_SIZE,
};

verus! {

/// How a successfully decoded segment shows up among a stream's items.
pub open spec fn as_item(m: SegmentModel) -> StepItem {
    Some(Ok(m))
}

/// The items of a stream that hands out exactly `segs`, in order.
pub open spec fn produced(segs: Seq<SegmentModel>) -> Seq<StepItem> {
    segs.map_values(|m: SegmentModel| as_item(m))
}

/// A stream with at least `n` segments still to come, whose next `n` records
/// fit in the buffer, hands out exactly those `n` segments in file order and
/// leaves its cursor right after the last of them.
pub proof fn lemma_fitting_records_stream(s: StreamModel, n: nat)
    requires
        stream_wf(s),
        n <= s.remaining,
        records_fit(s.data, s.pos as int, n),
    ensures
        outputs(s, n) == produced(segments_from(s.data, s.pos as int, n)),
        advanced(s, n) == (StreamModel {
            data: s.data,
            pos: records_end(s.data, s.pos as int, n) as usize,
            remaining: (s.remaining - n) as u8,
            index: (s.index + n) as u8,
        }),
        stream_wf(advanced(s, n)),
        s.pos <= records_end(s.data, s.pos as int, n) <= s.data.len(),
    decreases n,
{
    if n > 0 {
        let next = step(s).1;
        assert(next.pos == record_end(s.data, s.pos as int));
        lemma_fitting_records_stream(next, (n - 1) as nat);
        let segs = segments_from(s.data, s.pos as int, n);
        assert(segs == seq![segment_at(s.data, s.pos as int)] + segments_from(
            s.data,
            next.pos as int,
            (n - 1) as nat,
        ));
        assert(outputs(s, n) =~= produced(segs));
    }
}

/// A well-formed image with `k` announced segments yields exactly `k`
/// segments, the records of the buffer in file order, and then ends.
pub proof fn lemma_well_formed_yields_every_segment(b: Seq<u8>)
    requires
        well_formed(b),
        b.len() <= usize::MAX,
    ensures
        outputs(stream_start(b), segment_count_of(b) as nat) == produced(
            segments_from(b, HEADER_SIZE as int, segment_count_of(b) as nat),
        ),
        outputs(stream_start(b), segment_count_of(b) as nat).len() == segment_count_of(b),
        step(advanced(stream_start(b), segment_count_of(b) as nat)).0 == None::<Result<SegmentModel, ImageError>>,
{
    let k = segment_count_of(b) as nat;
    lemma_fitting_records_stream(stream_start(b), k);
    lemma_segments_from_len(b, HEADER_SIZE as int, k);
}

/// `segments_from` gives one segment per record.
pub proof fn lemma_segments_from_len(b: Seq<u8>, pos: int, n: nat)
    ensures
        segments_from(b, pos, n).len() == n,
    decreases n,
{
    if n > 0 {
        lemma_segments_from_len(b, record_end(b, pos), (n - 1) as nat);
    }
}

/// Records that fit lie back to back: starting at `pos`, the sub-headers and
/// payloads of the segments they describe end exactly where the records end,
/// inside the buffer.
pub proof fn lemma_records_span(b: Seq<u8>, pos: int, n: nat)
    requires
        0 <= pos,
        records_fit(b, pos, n),
    ensures
        pos + span_of(segments_from(b, pos, n)) == records_end(b, pos, n),
        n > 0 ==> records_end(b, pos, n) <= b.len(),
    decreases n,
{
    if n > 0 {
        let segs = segments_from(b, pos, n);
        let rest = segments_from(b, record_end(b, pos), (n - 1) as nat);
        assert(segs == seq![segment_at(b, pos)] + rest);
        assert(segs.drop_first() =~= rest);
        lemma_records_span(b, record_end(b, pos), (n - 1) as nat);
        assert(segs[0].data.len() == record_length(b, pos));
    }
}

/// In a well-formed image the header and the segments, each with its
/// sub-header, account for every byte the stream consumed: no gaps and no
/// overlap, and never past the end of the buffer.
pub proof fn lemma_well_formed_consumption(b: Seq<u8>)
    requires
        well_formed(b),
        b.len() <= usize::MAX,
    ensures
        HEADER_SIZE + span_of(segments_from(b, HEADER_SIZE as int, segment_count_of(b) as nat))
            == advanced(stream_start(b), segment_count_of(b) as nat).pos,
        advanced(stream_start(b), segment_count_of(b) as nat).pos <= b.len(),
{
    let k = segment_count_of(b) as nat;
    lemma_fitting_records_stream(stream_start(b), k);
    lemma_records_span(b, HEADER_SIZE as int, k);
}

/// The entry point depends on the four bytes of the entry field alone.
pub proof fn lemma_entry_reads_only_its_field(b1: Seq<u8>, b2: Seq<u8>)
    requires
        b1.len() >= HEADER_SIZE,
        b2.len() >= HEADER_SIZE,
        b1.subrange(0, 4) == b2.subrange(0, 4),
    ensures
        entry_of(b1) == entry_of(b2),
{
    assert(forall|i: int| 0 <= i < 4 ==> b1[i] == b1.subrange(0, 4)[i] && b2[i] == b2.subrange(0, 4)[i]);
}

/// When the first `i` records fit but record `i` declares a payload that runs
/// past the buffer, the stream still hands out the first `i` segments, then
/// reports a truncated payload at that record's offset, and then ends.
pub proof fn lemma_truncated_payload_reported(b: Seq<u8>, i: nat)
    requires
        b.len() >= HEADER_SIZE,
        b.len() <= usize::MAX,
        i < segment_count_of(b),
        records_fit(b, HEADER_SIZE as int, i),
        records_end(b, HEADER_SIZE as int, i) + SEGMENT_HEADER_SIZE <= b.len(),
        record_end(b, records_end(b, HEADER_SIZE as int, i)) > b.len(),
    ensures
        outputs(stream_start(b), i) == produced(segments_from(b, HEADER_SIZE as int, i)),
        step(advanced(stream_start(b), i)).0 == Some(
            Err::<SegmentModel, ImageError>(
                ImageError::TruncatedPayload {
                    index: i as u8,
                    offset: records_end(b, HEADER_SIZE as int, i) as usize,
                    length: record_length(b, records_end(b, HEADER_SIZE as int, i)),
                },
            ),
        ),
        step(step(advanced(stream_start(b), i)).1).0 == None::<Result<SegmentModel, ImageError>>,
{
    lemma_fitting_records_stream(stream_start(b), i);
    let s = advanced(stream_start(b), i);
    assert(step(s).1 == stream_stopped(s));
}

/// A stream whose remaining records do not all fit in the buffer hands out
/// the records that fit, in order, and then reports an error: it never ends
/// having silently produced fewer segments than announced.
pub proof fn lemma_misfit_stream_reports_error(s: StreamModel) -> (i: nat)
    requires
        stream_wf(s),
        !records_fit(s.data, s.pos as int, s.remaining as nat),
    ensures
        i < s.remaining,
        outputs(s, i) == produced(segments_from(s.data, s.pos as int, i)),
        step(advanced(s, i)).0 matches Some(Err(_)),
    decreases s.remaining,
{
    let next = step(s).1;
    if s.pos + SEGMENT_HEADER_SIZE > s.data.len() || record_end(s.data, s.pos as int) > s.data.len() {
        assert(outputs(s, 0) =~= produced(segments_from(s.data, s.pos as int, 0)));
        0
    } else {
        let j = lemma_misfit_stream_reports_error(next);
        let i = j + 1;
        assert(advanced(s, i) == advanced(next, j));
        assert(outputs(s, i) == seq![step(s).0] + outputs(next, j));
        assert(outputs(s, i) =~= produced(segments_from(s.data, s.pos as int, i)));
        i
    }
}

/// An image with a whole header that is not well formed hands out, for
/// some `i` below its segment count, its first `i` segments in order and
/// then an error.
pub proof fn lemma_malformed_image_reports_error(b: Seq<u8>) -> (i: nat)
    requires
        b.len() >= HEADER_SIZE,
        b.len() <= usize::MAX,
        !well_formed(b),
    ensures
        i < segment_count_of(b),
        outputs(stream_start(b), i) == produced(segments_from(b, HEADER_SIZE as int, i)),
        step(advanced(stream_start(b), i)).0 matches Some(Err(_)),
{
    lemma_misfit_stream_reports_error(stream_start(b))
}

} // verus!

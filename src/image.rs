use vstd::prelude::*;
use vstd::slice::slice_subrange;
use crate::layout::{
    entry_of, read_u32_le, record_end, record_length, segment_at, segment_count_of, SegmentModel,
    ENTRY_OFFSET, HEADER_SIZE, SEGMENT_COUNT_OFFSET, SEGMENT_HEADER_SIZE,
};

verus! {

/// Why an image could not be decoded, and where.
#[derive(Debug, Clone, Copy, PartialEq, Eq, Structural)]
pub enum ImageError {
    /// The buffer of `len` bytes is shorter than the image header.
    TruncatedHeader { len: usize },
    /// Segment `index` should start at `offset`, but fewer bytes than a
    /// segment header remain there.
    TruncatedSegmentHeader { index: u8, offset: usize },
    /// Segment `index`, whose record starts at `offset`, declares a payload of
    /// `length` bytes that runs past the end of the buffer.
    TruncatedPayload { index: u8, offset: usize, length: u32 },
}

/// A code segment: a load address and its payload, borrowed from the image.
#[derive(Debug, Clone, Copy)]
pub struct CodeSegment<'a> {
    pub address: u32,
    pub data: &'a [u8],
}

impl<'a> View for CodeSegment<'a> {
    type V = SegmentModel;

    open spec fn view(&self) -> SegmentModel {
        SegmentModel { address: self.address, data: self.data@ }
    }
}

/// An application image held in a borrowed buffer.
#[derive(Debug, Clone, Copy)]
pub struct EspFirmwareImage<'a> {
    pub image_data: &'a [u8],
}

/// The state of a segment stream: the buffer, the cursor, how many segments
/// are still to come and how many were produced.
pub struct StreamModel {
    pub data: Seq<u8>,
    pub pos: usize,
    pub remaining: u8,
    pub index: u8,
}

/// What one step of a segment stream hands out.
pub type StepItem = Option<Result<SegmentModel, ImageError>>;

/// The states that a segment stream can be in.
pub open spec fn stream_wf(s: StreamModel) -> bool {
    &&& s.pos <= s.data.len() <= usize::MAX
    &&& s.index + s.remaining <= u8::MAX
}

/// A fresh stream over `b`: the cursor right after the header, with every
/// announced segment still to come.
pub open spec fn stream_start(b: Seq<u8>) -> StreamModel {
    StreamModel { data: b, pos: HEADER_SIZE, remaining: segment_count_of(b), index: 0 }
}

/// The stream once it has stopped.
pub open spec fn stream_stopped(s: StreamModel) -> StreamModel {
    StreamModel { data: s.data, pos: s.pos, remaining: 0, index: s.index }
}

/// One advance of a segment stream: what it hands out and its next state.
/// A stream with nothing left ends; a record that does not fit in the buffer
/// is reported and stops the stream; otherwise the record's segment comes out
/// and the cursor moves past it.
pub open spec fn step(s: StreamModel) -> (StepItem, StreamModel) {
    if s.remaining == 0 {
        (None, s)
    } else if s.pos + SEGMENT_HEADER_SIZE > s.data.len() {
        (
            Some(Err(ImageError::TruncatedSegmentHeader { index: s.index, offset: s.pos })),
            stream_stopped(s),
        )
    } else if record_end(s.data, s.pos as int) > s.data.len() {
        (
            Some(
                Err(
                    ImageError::TruncatedPayload {
                        index: s.index,
                        offset: s.pos,
                        length: record_length(s.data, s.pos as int),
                    },
                ),
            ),
            stream_stopped(s),
        )
    } else {
        (
            Some(Ok(segment_at(s.data, s.pos as int))),
            StreamModel {
                data: s.data,
                pos: record_end(s.data, s.pos as int) as usize,
                remaining: (s.remaining - 1) as u8,
                index: (s.index + 1) as u8,
            },
        )
    }
}

/// What `n` advances from `s` hand out, in order.
pub open spec fn outputs(s: StreamModel, n: nat) -> Seq<StepItem>
    decreases n,
{
    if n == 0 {
        Seq::empty()
    } else {
        seq![step(s).0] + outputs(step(s).1, (n - 1) as nat)
    }
}

/// The state of the stream after `n` advances from `s`.
pub open spec fn advanced(s: StreamModel, n: nat) -> StreamModel
    decreases n,
{
    if n == 0 {
        s
    } else {
        advanced(step(s).1, (n - 1) as nat)
    }
}

/// The model of an item handed out by `SectionIter::next`.
pub open spec fn item_view(r: Option<Result<CodeSegment, ImageError>>) -> StepItem {
    match r {
        None => None,
        Some(Ok(seg)) => Some(Ok(seg@)),
        Some(Err(e)) => Some(Err(e)),
    }
}

/// A forward-only stream over the segments of an image, in file order.
#[derive(Debug)]
pub struct SectionIter<'a> {
    data: &'a [u8],
    pos: usize,
    remaining: u8,
    index: u8,
}

impl<'a> View for SectionIter<'a> {
    type V = StreamModel;

    closed spec fn view(&self) -> StreamModel {
        StreamModel {
            data: self.data@,
            pos: self.pos,
            remaining: self.remaining,
            index: self.index,
        }
    }
}

impl<'a> SectionIter<'a> {
    pub open spec fn wf(&self) -> bool {
        stream_wf(self@)
    }

    /// Advances the stream by one segment. `None` once every announced
    /// segment was produced, or after an error was reported.
    pub fn next(&mut self) -> (r: Option<Result<CodeSegment<'a>, ImageError>>)
        requires
            old(self).wf(),
        ensures
            final(self).wf(),
            (item_view(r), final(self)@) == step(old(self)@),
    {
        if self.remaining == 0 {
            return None;
        }
        let len = self.data.len();
        if len - self.pos < SEGMENT_HEADER_SIZE {
            let offset = self.pos;
            self.remaining = 0;
            return Some(Err(ImageError::TruncatedSegmentHeader { index: self.index, offset }));
        }
        let address = read_u32_le(self.data, self.pos);
        let length = read_u32_le(self.data, self.pos + 4);
        let start = self.pos + SEGMENT_HEADER_SIZE;
        if len - start < length as usize {
            let offset = self.pos;
            self.remaining = 0;
            return Some(
                Err(ImageError::TruncatedPayload { index: self.index, offset, length }),
            );
        }
        let end = start + length as usize;
        let data = slice_subrange(self.data, start, end);
        self.pos = end;
        self.remaining = self.remaining - 1;
        self.index = self.index + 1;
        Some(Ok(CodeSegment { address, data }))
    }
}

impl<'a> EspFirmwareImage<'a> {
    /// Wraps a buffer; nothing is read until `entry` or `segments` is called.
    pub fn new(image_data: &'a [u8]) -> (r: Self)
        ensures
            r.image_data@ == image_data@,
    {
        EspFirmwareImage { image_data }
    }

    /// The entry point: the little-endian word at the header's entry offset.
    pub fn entry(&self) -> (r: Result<u32, ImageError>)
        ensures
            match r {
                Ok(v) => self.image_data@.len() >= HEADER_SIZE && v == entry_of(self.image_data@),
                Err(e) => self.image_data@.len() < HEADER_SIZE && e == (ImageError::TruncatedHeader {
                    len: self.image_data@.len() as usize,
                }),
            },
    {
        let len = self.image_data.len();
        if len < HEADER_SIZE {
            return Err(ImageError::TruncatedHeader { len });
        }
        Ok(read_u32_le(self.image_data, ENTRY_OFFSET))
    }

    /// A fresh stream over the segments, positioned right after the header.
    /// Each call starts a new, independent stream.
    pub fn segments(&self) -> (r: Result<SectionIter<'a>, ImageError>)
        ensures
            match r {
                Ok(it) => self.image_data@.len() >= HEADER_SIZE && it@ == stream_start(
                    self.image_data@,
                ) && it.wf(),
                Err(e) => self.image_data@.len() < HEADER_SIZE && e == (ImageError::TruncatedHeader {
                    len: self.image_data@.len() as usize,
                }),
            },
    {
        let len = self.image_data.len();
        if len < HEADER_SIZE {
            return Err(ImageError::TruncatedHeader { len });
        }
        let remaining = self.image_data[SEGMENT_COUNT_OFFSET];
        Ok(SectionIter { data: self.image_data, pos: HEADER_SIZE, remaining, index: 0 })
    }
}

} // verus!

use esp_image::image::{CodeSegment, EspFirmwareImage, ImageError, SectionIter};
use esp_image::layout::{read_u32_le, HEADER_SIZE, SEGMENT_HEADER_SIZE};

fn header(entry: u32, segment_count: u8) -> Vec<u8> {
    let mut h = vec![0u8; HEADER_SIZE];
    h[0..4].copy_from_slice(&entry.to_le_bytes());
    h[4] = segment_count;
    h
}

fn push_segment(buf: &mut Vec<u8>, address: u32, data: &[u8]) {
    buf.extend_from_slice(&address.to_le_bytes());
    buf.extend_from_slice(&(data.len() as u32).to_le_bytes());
    buf.extend_from_slice(data);
}

fn two_segment_image() -> Vec<u8> {
    let mut buf = header(0x4008_0000, 2);
    push_segment(&mut buf, 0x3FFB_0000, &[0x01, 0x02, 0x03, 0x04]);
    push_segment(&mut buf, 0x4008_0000, &[0xAA, 0xBB]);
    buf
}

fn drain<'a>(mut it: SectionIter<'a>) -> Vec<Result<CodeSegment<'a>, ImageError>> {
    let mut out = Vec::new();
    while let Some(item) = it.next() {
        out.push(item);
    }
    out
}

#[test]
fn two_segment_scenario() {
    let buf = two_segment_image();
    let image = EspFirmwareImage::new(&buf);
    assert_eq!(image.entry(), Ok(0x4008_0000));
    let items = drain(image.segments().unwrap());
    assert_eq!(items.len(), 2);
    let first = items[0].unwrap();
    assert_eq!(first.address, 0x3FFB_0000);
    assert_eq!(first.data, &[0x01, 0x02, 0x03, 0x04]);
    let second = items[1].unwrap();
    assert_eq!(second.address, 0x4008_0000);
    assert_eq!(second.data, &[0xAA, 0xBB]);
}

#[test]
fn truncated_second_payload() {
    let mut buf = two_segment_image();
    buf.pop();
    let image = EspFirmwareImage::new(&buf);
    let mut it = image.segments().unwrap();
    let first = it.next().unwrap().unwrap();
    assert_eq!(first.address, 0x3FFB_0000);
    assert_eq!(first.data, &[0x01, 0x02, 0x03, 0x04]);
    let offset = HEADER_SIZE + SEGMENT_HEADER_SIZE + 4;
    assert_eq!(
        it.next().unwrap().unwrap_err(),
        ImageError::TruncatedPayload { index: 1, offset, length: 2 }
    );
    assert!(it.next().is_none());
    assert!(it.next().is_none());
}

#[test]
fn short_buffer_is_truncated_header() {
    for len in [0usize, 1, 4, HEADER_SIZE - 1] {
        let buf = vec![0x11u8; len];
        let image = EspFirmwareImage::new(&buf);
        assert_eq!(image.entry(), Err(ImageError::TruncatedHeader { len }));
        assert_eq!(image.segments().unwrap_err(), ImageError::TruncatedHeader { len });
    }
}

#[test]
fn header_only_image_with_no_segments() {
    let buf = header(0x1234_5678, 0);
    let image = EspFirmwareImage::new(&buf);
    assert_eq!(image.entry(), Ok(0x1234_5678));
    assert!(drain(image.segments().unwrap()).is_empty());
}

#[test]
fn entry_ignores_segment_content() {
    let a = two_segment_image();
    let mut b = header(0x4008_0000, 1);
    push_segment(&mut b, 0xDEAD_BEEF, &[9, 9, 9]);
    assert_eq!(EspFirmwareImage::new(&a).entry(), EspFirmwareImage::new(&b).entry());
    assert_eq!(EspFirmwareImage::new(&b).entry(), Ok(0x4008_0000));
}

#[test]
fn entry_is_little_endian() {
    let mut buf = header(0, 0);
    buf[0..4].copy_from_slice(&[0x78, 0x56, 0x34, 0x12]);
    assert_eq!(EspFirmwareImage::new(&buf).entry(), Ok(0x1234_5678));
}

#[test]
fn segments_twice_gives_identical_streams() {
    let buf = two_segment_image();
    let image = EspFirmwareImage::new(&buf);
    let mut a = image.segments().unwrap();
    let mut b = image.segments().unwrap();
    let a0 = a.next().unwrap().unwrap();
    let b0 = b.next().unwrap().unwrap();
    let b1 = b.next().unwrap().unwrap();
    let a1 = a.next().unwrap().unwrap();
    assert_eq!((a0.address, a0.data), (b0.address, b0.data));
    assert_eq!((a1.address, a1.data), (b1.address, b1.data));
    assert!(a.next().is_none());
    assert!(b.next().is_none());
}

#[test]
fn yields_exactly_the_announced_count() {
    let mut buf = header(0, 3);
    push_segment(&mut buf, 1, &[1]);
    push_segment(&mut buf, 2, &[]);
    push_segment(&mut buf, 3, &[3, 3, 3]);
    push_segment(&mut buf, 4, &[4, 4]);
    let items = drain(EspFirmwareImage::new(&buf).segments().unwrap());
    let addresses: Vec<u32> = items.iter().map(|s| s.unwrap().address).collect();
    assert_eq!(addresses, vec![1, 2, 3]);
    assert_eq!(items[1].unwrap().data.len(), 0);
}

#[test]
fn segments_tile_the_buffer() {
    let buf = two_segment_image();
    let base = buf.as_ptr() as usize;
    let items = drain(EspFirmwareImage::new(&buf).segments().unwrap());
    let mut consumed = HEADER_SIZE;
    for item in &items {
        let seg = item.unwrap();
        assert_eq!(seg.data.as_ptr() as usize - base, consumed + SEGMENT_HEADER_SIZE);
        consumed += SEGMENT_HEADER_SIZE + seg.data.len();
    }
    assert_eq!(consumed, buf.len());
}

#[test]
fn truncated_segment_header() {
    let mut buf = header(0, 2);
    push_segment(&mut buf, 7, &[1, 2]);
    buf.extend_from_slice(&[0, 0, 0]);
    let mut it = EspFirmwareImage::new(&buf).segments().unwrap();
    assert_eq!(it.next().unwrap().unwrap().address, 7);
    assert_eq!(
        it.next().unwrap().unwrap_err(),
        ImageError::TruncatedSegmentHeader { index: 1, offset: HEADER_SIZE + SEGMENT_HEADER_SIZE + 2 }
    );
    assert!(it.next().is_none());
}

#[test]
fn huge_declared_length_is_truncated_payload() {
    let mut buf = header(0, 1);
    buf.extend_from_slice(&0x1000u32.to_le_bytes());
    buf.extend_from_slice(&u32::MAX.to_le_bytes());
    buf.extend_from_slice(&[1, 2, 3]);
    let mut it = EspFirmwareImage::new(&buf).segments().unwrap();
    assert_eq!(
        it.next().unwrap().unwrap_err(),
        ImageError::TruncatedPayload { index: 0, offset: HEADER_SIZE, length: u32::MAX }
    );
    assert!(it.next().is_none());
}

#[test]
fn reads_little_endian_words() {
    let bytes = [0xFFu8, 0x01, 0x02, 0x03, 0x04, 0xFF];
    assert_eq!(read_u32_le(&bytes, 1), 0x0403_0201);
    assert_eq!(read_u32_le(&[0xFF; 4], 0), u32::MAX);
}

#[test]
fn new_keeps_the_buffer() {
    let buf = two_segment_image();
    let image = EspFirmwareImage::new(&buf);
    assert_eq!(image.image_data, &buf[..]);
}

use std::cell::{Cell, RefCell};

use pipecap::capture::{
    locate_frame, process_frame, settle_size, video_format_params, Fraction, Frame, Rectangle,
    VideoChunk, VideoFormat, VideoParam, MAX_FRAME,
};
use pipecap::shm::{
    shm_public_path, ShmBuffer, ShmHeader, DATA_OFFSET_AT, DATA_SIZE_AT, HEADER_SIZE, HEIGHT_AT,
    SEQ_AT, STRIDE_AT, WIDTH_AT,
};

const EMPTY: ShmHeader =
    ShmHeader { seq: 0, width: 0, height: 0, stride: 0, data_offset: 0, data_size: 0 };

const UNKNOWN: Rectangle = Rectangle { width: 0, height: 0 };

/// What a reader finds behind the header.
fn current(header: &ShmHeader, frames: &[u8]) -> Vec<u8> {
    let start = header.data_offset as usize - HEADER_SIZE;
    frames[start..start + header.data_size as usize].to_vec()
}

#[test]
fn region_holds_a_header_and_two_frames() {
    let shm = ShmBuffer::new(100);
    assert_eq!(shm.size(), 232);
    assert_eq!(shm.header_size(), 32);
    assert_eq!(shm.max_frame_size(), 100);
    assert_eq!(ShmBuffer::new(0).size(), 32);
}

#[test]
fn header_lies_in_the_region_as_readers_know_it() {
    let header = ShmHeader {
        seq: 0x0807_0605_0403_0201,
        width: 0x1413_1211,
        height: 0x2423_2221,
        stride: 0x3433_3231,
        data_offset: 0x4443_4241,
        data_size: 0x5453_5251,
    };
    let bytes = header.to_bytes();
    assert_eq!(bytes.len(), HEADER_SIZE);
    assert_eq!(bytes[0..8], header.seq.to_le_bytes());
    assert_eq!(bytes[8..12], header.width.to_le_bytes());
    assert_eq!(bytes[12..16], header.height.to_le_bytes());
    assert_eq!(bytes[16..20], header.stride.to_le_bytes());
    assert_eq!(bytes[20..24], header.data_offset.to_le_bytes());
    assert_eq!(bytes[24..28], header.data_size.to_le_bytes());
    assert_eq!(bytes[28..32], [0; 4]);
    let places = [SEQ_AT, WIDTH_AT, HEIGHT_AT, STRIDE_AT, DATA_OFFSET_AT, DATA_SIZE_AT];
    assert_eq!(places, [0, 8, 12, 16, 20, 24]);
}

#[test]
fn first_header_is_all_zeros() {
    assert_eq!(ShmHeader::new(), EMPTY);
    assert_eq!(ShmHeader::new().to_bytes(), vec![0; 32]);
}

#[test]
fn region_is_found_in_dev_shm() {
    assert_eq!(shm_public_path(), "/dev/shm/pipecap-frames");
}

#[test]
fn frames_read_back_from_alternating_slots() {
    let shm = ShmBuffer::new(4);
    let mut header = EMPTY;
    let mut frames = [0u8; 8];
    assert!(shm.write_frame(&mut header, &mut frames, 1, 2, 3, &[1, 2, 3, 4]));
    let expected =
        ShmHeader { seq: 1, width: 1, height: 2, stride: 3, data_offset: 36, data_size: 4 };
    assert_eq!(header, expected);
    assert_eq!(frames, [0, 0, 0, 0, 1, 2, 3, 4]);
    let first = header;

    assert!(shm.write_frame(&mut header, &mut frames, 5, 6, 7, &[9, 8, 7]));
    let expected =
        ShmHeader { seq: 2, width: 5, height: 6, stride: 7, data_offset: 32, data_size: 3 };
    assert_eq!(header, expected);
    assert_eq!(current(&header, &frames), vec![9, 8, 7]);
    // The frame that a reader may still be at is kept.
    assert_eq!(current(&first, &frames), vec![1, 2, 3, 4]);

    assert!(shm.write_frame(&mut header, &mut frames, 1, 1, 1, &[5]));
    assert_eq!((header.seq, header.data_offset, header.data_size), (3, 36, 1));
    assert_eq!(frames, [9, 8, 7, 0, 5, 2, 3, 4]);
}

#[test]
fn frame_that_does_not_fit_is_dropped() {
    let shm = ShmBuffer::new(4);
    let mut header = EMPTY;
    let mut frames = [7u8; 8];
    assert!(!shm.write_frame(&mut header, &mut frames, 1, 1, 1, &[0; 5]));
    assert_eq!(header, EMPTY);
    assert_eq!(frames, [7u8; 8]);
}

#[test]
fn region_is_opened_sized_and_mapped() {
    let steps = RefCell::new(Vec::new());
    let written = RefCell::new(None);
    let region = ShmBuffer::create(
        10,
        || Ok::<i32, String>(3),
        |fd, size| {
            steps.borrow_mut().push((fd, size));
            Ok(())
        },
        |fd, size| {
            steps.borrow_mut().push((fd, size));
            Ok("mapping")
        },
        |mapping, header| *written.borrow_mut() = Some((*mapping, header)),
        |_| unreachable!(),
    )
    .unwrap();
    assert_eq!(*written.borrow(), Some(("mapping", vec![0; 32])));
    assert_eq!(*steps.borrow(), vec![(3, 52), (3, 52)]);
    assert_eq!((region.fd, region.mapping, region.layout.size()), (3, "mapping", 52));
}

#[test]
fn region_that_cannot_be_made_is_closed() {
    let closed = Cell::new(None);
    let attempt = |opened: Result<i32, String>, sized: Result<(), String>| {
        closed.set(None);
        ShmBuffer::create(
            10,
            || opened,
            |_, _| sized,
            |_, _| Err::<(), String>("mmap".to_string()),
            |_, _| unreachable!(),
            |fd| closed.set(Some(fd)),
        )
        .unwrap_err()
    };
    assert_eq!(attempt(Err("open".to_string()), Ok(())), "open");
    assert_eq!(closed.get(), None);
    assert_eq!(attempt(Ok(3), Err("size".to_string())), "size");
    assert_eq!(closed.get(), Some(3));
    assert_eq!(attempt(Ok(4), Ok(())), "mmap");
    assert_eq!(closed.get(), Some(4));
}

#[test]
fn largest_frame_is_asked_for_and_fits() {
    let params = video_format_params(30);
    let Rectangle { width, height } = params.size.max;
    assert_eq!((width, height), (7680, 4320));
    assert_eq!(MAX_FRAME, width as usize * height as usize * 4);
    assert_eq!(params.size.min, Rectangle { width: 1, height: 1 });
    assert_eq!(params.size.default, Rectangle { width: 1920, height: 1080 });
}

#[test]
fn formats_and_rates_are_asked_for() {
    let params = video_format_params(60);
    assert_eq!(params.format, VideoFormat::BGRx);
    assert_eq!(
        params.formats,
        vec![VideoFormat::BGRx, VideoFormat::RGBA, VideoFormat::RGBx, VideoFormat::RGB]
    );
    assert_eq!(params.framerate.default, Fraction { num: 60, denom: 1 });
    assert_eq!(params.framerate.min, Fraction { num: 0, denom: 1 });
    assert_eq!(params.framerate.max, Fraction { num: 1000, denom: 1 });
}

#[test]
fn frame_has_the_negotiated_size() {
    let chunk = VideoChunk { size: 80, stride: 40, offset: 8 };
    let negotiated = Rectangle { width: 9, height: 2 };
    let frame = Frame { width: 9, height: 2, stride: 40, start: 8, end: 88 };
    assert_eq!(locate_frame(chunk, negotiated, 88), Some(frame));
    assert_eq!(locate_frame(chunk, negotiated, 87), None);
}

#[test]
fn frame_size_is_derived_before_it_is_negotiated() {
    let chunk = VideoChunk { size: 90, stride: 40, offset: 0 };
    let frame = Frame { width: 10, height: 2, stride: 40, start: 0, end: 90 };
    assert_eq!(locate_frame(chunk, UNKNOWN, 100), Some(frame));
    assert_eq!(locate_frame(chunk, Rectangle { width: 5, height: 0 }, 100), Some(frame));
    assert_eq!(locate_frame(VideoChunk { stride: 3, ..chunk }, UNKNOWN, 100), None);
    assert_eq!(locate_frame(VideoChunk { size: 39, ..chunk }, UNKNOWN, 100), None);
}

#[test]
fn chunk_without_a_frame_is_skipped() {
    let chunk = VideoChunk { size: 4, stride: 4, offset: 0 };
    let negotiated = Rectangle { width: 1, height: 1 };
    assert!(locate_frame(chunk, negotiated, 4).is_some());
    assert_eq!(locate_frame(VideoChunk { size: 0, ..chunk }, negotiated, 4), None);
    assert_eq!(locate_frame(VideoChunk { stride: 0, ..chunk }, negotiated, 4), None);
    assert_eq!(locate_frame(VideoChunk { stride: -4, ..chunk }, negotiated, 4), None);
    let far = VideoChunk { size: u32::MAX, stride: 4, offset: u32::MAX };
    assert_eq!(locate_frame(far, negotiated, 4), None);
}

#[test]
fn delivered_frame_is_published() {
    let shm = ShmBuffer::new(8);
    let mut header = EMPTY;
    let mut frames = [0u8; 16];
    let mapped: Vec<u8> = (0..12).collect();
    let chunk = VideoChunk { size: 8, stride: 4, offset: 2 };
    let found = process_frame(&shm, &mut header, &mut frames, chunk, UNKNOWN, Some(&mapped));
    assert_eq!(found, Some(Frame { width: 1, height: 2, stride: 4, start: 2, end: 10 }));
    assert_eq!((header.seq, header.width, header.height, header.stride), (1, 1, 2, 4));
    assert_eq!(current(&header, &frames), (2..10).collect::<Vec<u8>>());
}

#[test]
fn nothing_is_published_without_a_frame() {
    let shm = ShmBuffer::new(8);
    let mut header = EMPTY;
    let mut frames = [0u8; 16];
    let chunk = VideoChunk { size: 8, stride: 4, offset: 2 };
    let mapped = [1u8; 9];
    assert!(process_frame(&shm, &mut header, &mut frames, chunk, UNKNOWN, None).is_none());
    let found = process_frame(&shm, &mut header, &mut frames, chunk, UNKNOWN, Some(&mapped));
    assert!(found.is_none());
    // A frame that is found but too large is reported, and not written.
    let large = VideoChunk { size: 9, stride: 4, offset: 0 };
    let found = process_frame(&shm, &mut header, &mut frames, large, UNKNOWN, Some(&mapped));
    assert!(found.is_some());
    assert_eq!(header, EMPTY);
    assert_eq!(frames, [0u8; 16]);
}

#[test]
fn reader_finds_the_last_frame_that_fits() {
    let shm = ShmBuffer::new(3);
    assert!(shm.size() >= HEADER_SIZE);
    let mut header = ShmHeader::new();
    let mut frames = [0u8; 6];
    let mut accepted = 0;
    for (i, len) in [1usize, 3, 4, 0, 2, 5].into_iter().enumerate() {
        let data = vec![i as u8 + 1; len];
        if shm.write_frame(&mut header, &mut frames, i as u32, 7, 8, &data) {
            accepted += 1;
        }
    }
    assert_eq!(accepted, 4);
    assert_eq!((header.seq, header.width), (4, 4));
    assert_eq!(current(&header, &frames), vec![5, 5]);
}

#[test]
fn size_settles_with_a_readable_format() {
    let current = Rectangle { width: 1, height: 2 };
    let size = Rectangle { width: 3, height: 4 };
    let settled = |is_format, size| settle_size(current, Some(VideoParam { is_format, size }));
    assert_eq!(settled(true, Some(size)), size);
    assert_eq!(settled(true, None), current);
    assert_eq!(settled(false, Some(size)), current);
    assert_eq!(settle_size(current, None), current);
}

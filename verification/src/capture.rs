//! Video frames: what is asked for, and what is made of what arrives.
use vstd::prelude::*;

use crate::shm::{ShmBuffer, ShmHeader};

verus! {

/// Bytes of the largest frame: 7680 by 4320 pixels of four bytes.
pub const MAX_FRAME: usize = 132_710_400;

/// A pixel format.
#[derive(Debug, Clone, Copy, PartialEq, Eq, Structural)]
pub enum VideoFormat {
    BGRx,
    RGBA,
    RGBx,
    RGB,
}

/// A size in pixels.
#[derive(Debug, Clone, Copy, PartialEq, Eq, Structural)]
pub struct Rectangle {
    pub width: u32,
    pub height: u32,
}

/// A ratio.
#[derive(Debug, Clone, Copy, PartialEq, Eq, Structural)]
pub struct Fraction {
    pub num: u32,
    pub denom: u32,
}

/// A value that is preferred, and the range that is accepted.
#[derive(Debug)]
pub struct RangeChoice<T> {
    pub default: T,
    pub min: T,
    pub max: T,
}

/// The raw video that a capture asks for.
#[derive(Debug)]
pub struct VideoFormatParams {
    /// The preferred pixel format.
    pub format: VideoFormat,
    /// The pixel formats that are accepted.
    pub formats: Vec<VideoFormat>,
    pub size: RangeChoice<Rectangle>,
    pub framerate: RangeChoice<Fraction>,
}

/// The raw video that a capture at `fps` frames per second asks for.
pub fn video_format_params(fps: u32) -> (params: VideoFormatParams)
    ensures
        params.format == VideoFormat::BGRx,
        params.formats@ == seq![
            VideoFormat::BGRx,
            VideoFormat::RGBA,
            VideoFormat::RGBx,
            VideoFormat::RGB,
        ],
        params.size == (RangeChoice {
            default: Rectangle { width: 1920, height: 1080 },
            min: Rectangle { width: 1, height: 1 },
            max: Rectangle { width: 7680, height: 4320 },
        }),
        params.framerate == (RangeChoice {
            default: Fraction { num: fps, denom: 1 },
            min: Fraction { num: 0, denom: 1 },
            max: Fraction { num: 1000, denom: 1 },
        }),
{
    VideoFormatParams {
        format: VideoFormat::BGRx,
        formats: vec![VideoFormat::BGRx, VideoFormat::RGBA, VideoFormat::RGBx, VideoFormat::RGB],
        size: RangeChoice {
            default: Rectangle { width: 1920, height: 1080 },
            min: Rectangle { width: 1, height: 1 },
            max: Rectangle { width: 7680, height: 4320 },
        },
        framerate: RangeChoice {
            default: Fraction { num: fps, denom: 1 },
            min: Fraction { num: 0, denom: 1 },
            max: Fraction { num: 1000, denom: 1 },
        },
    }
}

/// What a video stream says when one of its parameters changed.
#[derive(Debug, Clone, Copy)]
pub struct VideoParam {
    /// Whether the parameter is the format.
    pub is_format: bool,
    /// The size in pixels, if it could be read.
    pub size: Option<Rectangle>,
}

/// The negotiated size, which was `current`, after a parameter changed or was
/// cleared: that of the format, where it could be read.
pub open spec fn settled_size(current: Rectangle, change: Option<VideoParam>) -> Rectangle {
    match change {
        Some(VideoParam { is_format: true, size: Some(size) }) => size,
        _ => current,
    }
}

/// The negotiated size, which was `current`, after a parameter changed or was
/// cleared.
pub fn settle_size(current: Rectangle, change: Option<VideoParam>) -> (size: Rectangle)
    ensures
        size == settled_size(current, change),
{
    match change {
        Some(change) => match change.size {
            Some(size) if change.is_format => size,
            _ => current,
        },
        None => current,
    }
}

/// What a stream says of the chunk it delivered.
#[derive(Debug, Clone, Copy, PartialEq, Eq, Structural)]
pub struct VideoChunk {
    pub size: u32,
    pub stride: i32,
    pub offset: u32,
}

/// A frame in a delivered chunk: its size in pixels, the bytes of a line, and
/// where its bytes start and end.
#[derive(Debug, Clone, Copy, PartialEq, Eq, Structural)]
pub struct Frame {
    pub width: u32,
    pub height: u32,
    pub stride: u32,
    pub start: usize,
    pub end: usize,
}

/// The size in pixels of the frame in a chunk: the negotiated one; before
/// there is one, what four-byte pixels make of the chunk.
pub open spec fn frame_size(chunk: VideoChunk, negotiated: Rectangle) -> Rectangle
    recommends
        chunk.stride > 0,
{
    if negotiated.width == 0 || negotiated.height == 0 {
        Rectangle {
            width: (chunk.stride / 4) as u32,
            height: (chunk.size as int / chunk.stride as int) as u32,
        }
    } else {
        negotiated
    }
}

/// Whether a chunk, of which `mapped` bytes can be read, holds a frame.
pub open spec fn has_frame(chunk: VideoChunk, negotiated: Rectangle, mapped: nat) -> bool {
    &&& chunk.size > 0
    &&& chunk.stride > 0
    &&& frame_size(chunk, negotiated).width > 0
    &&& frame_size(chunk, negotiated).height > 0
    &&& chunk.offset + chunk.size <= mapped
}

/// The frame in a delivered chunk, of which `mapped` bytes can be read.
pub fn locate_frame(chunk: VideoChunk, negotiated: Rectangle, mapped: usize) -> (frame: Option<
    Frame,
>)
    ensures
        frame is Some <==> has_frame(chunk, negotiated, mapped as nat),
        frame matches Some(frame) ==> {
            &&& frame.width == frame_size(chunk, negotiated).width
            &&& frame.height == frame_size(chunk, negotiated).height
            &&& frame.stride == chunk.stride
            &&& frame.start == chunk.offset
            &&& frame.end == chunk.offset + chunk.size
        },
{
    if chunk.size == 0 || chunk.stride <= 0 {
        return None;
    }
    let stride: u32 = chunk.stride as u32;
    let (width, height): (u32, u32) = if negotiated.width == 0 || negotiated.height == 0 {
        (stride / 4, chunk.size / stride)
    } else {
        (negotiated.width, negotiated.height)
    };
    if width == 0 || height == 0 {
        return None;
    }
    let start: u64 = chunk.offset as u64;
    let end: u64 = start + chunk.size as u64;
    if end > mapped as u64 {
        return None;
    }
    Some(Frame { width, height, stride, start: start as usize, end: end as usize })
}

/// Takes a chunk that the stream delivered: writes the frame it holds, if any,
/// into the slot of the region that is not being read. `mapped` is the memory
/// of the chunk. Returns the frame that was found.
pub fn process_frame(
    shm: &ShmBuffer,
    header: &mut ShmHeader,
    frames: &mut [u8],
    chunk: VideoChunk,
    negotiated: Rectangle,
    mapped: Option<&[u8]>,
) -> (found: Option<Frame>)
    requires
        old(header).seq < u64::MAX,
        old(frames)@.len() >= 2 * crate::shm::max_frame(shm@),
    ensures
        found is Some <==> mapped is Some && has_frame(chunk, negotiated, mapped->0@.len()),
        found matches Some(frame) ==> {
            &&& frame.width == frame_size(chunk, negotiated).width
            &&& frame.height == frame_size(chunk, negotiated).height
            &&& frame.stride == chunk.stride
            &&& frame.start == chunk.offset
            &&& frame.end == chunk.offset + chunk.size
        },
        ({
            let max = crate::shm::max_frame(shm@);
            match found {
                Some(frame) if chunk.size <= max => {
                    let data = mapped->0@.subrange(frame.start as int, frame.end as int);
                    &&& *final(header) == crate::shm::published(
                        max,
                        *old(header),
                        frame.width,
                        frame.height,
                        frame.stride,
                        data.len(),
                    )
                    &&& final(frames)@ == crate::shm::overwritten(
                        old(frames)@,
                        crate::shm::slot_start(max, old(header).seq) as int,
                        data,
                    )
                },
                _ => *final(header) == *old(header) && final(frames)@ == old(frames)@,
            }
        }),
{
    match mapped {
        Some(bytes) => match locate_frame(chunk, negotiated, bytes.len()) {
            Some(frame) => {
                let data = vstd::slice::slice_subrange(bytes, frame.start, frame.end);
                let _ = shm.write_frame(
                    header,
                    frames,
                    frame.width,
                    frame.height,
                    frame.stride,
                    data,
                );
                Some(frame)
            },
            None => None,
        },
        None => None,
    }
}

/// A frame of four-byte pixels whose size was asked for, without padding,
/// fits into a slot.
pub proof fn law_requested_frames_fit(size: Rectangle)
    requires
        size.width <= 7680,
        size.height <= 4320,
    ensures
        size.width * size.height * 4 <= MAX_FRAME,
{
    assert(size.width * size.height <= 7680 * 4320) by (nonlinear_arith)
        requires
            size.width <= 7680,
            size.height <= 4320,
    ;
}

/// A chunk gives a frame if and only if it holds something, lies in what can
/// be read, and has a size in pixels: the negotiated one, or else, with lines
/// of four-byte pixels, at least one line of one pixel. The frame has that
/// size, width for width and height for height, the chunk's own stride, and
/// its bytes.
pub proof fn law_frame_has_the_negotiated_size(
    chunk: VideoChunk,
    negotiated: Rectangle,
    mapped: usize,
    frame: Option<Frame>,
)
    requires
        call_ensures(locate_frame, (chunk, negotiated, mapped), frame),
    ensures
        frame is Some <==> chunk.size > 0 && chunk.stride > 0 && chunk.offset + chunk.size
            <= mapped && (negotiated.width > 0 && negotiated.height > 0 || chunk.stride >= 4
            && chunk.size >= chunk.stride),
        frame matches Some(frame) ==> {
            &&& negotiated.width > 0 && negotiated.height > 0 ==> frame.width == negotiated.width
                && frame.height == negotiated.height
            &&& negotiated.width == 0 || negotiated.height == 0 ==> {
                &&& 4 * frame.width <= chunk.stride < 4 * frame.width + 4
                &&& frame.height * chunk.stride <= chunk.size
                &&& chunk.size < (frame.height + 1) * chunk.stride
            }
            &&& frame.stride == chunk.stride
            &&& frame.start == chunk.offset
            &&& frame.end == chunk.offset + chunk.size
        },
{
    if chunk.stride > 0 {
        lemma_lines(chunk.size as int, chunk.stride as int);
    }
}

/// The whole lines of `stride` bytes in `size` bytes.
proof fn lemma_lines(size: int, stride: int)
    requires
        size >= 0,
        stride > 0,
    ensures
        (size / stride) * stride <= size,
        size < (size / stride + 1) * stride,
        size / stride >= 0,
        size / stride <= size,
        size / stride > 0 <==> size >= stride,
{
    assert((size / stride) * stride <= size && size < (size / stride + 1) * stride && size / stride
        >= 0 && size / stride <= size && (size / stride > 0 <==> size >= stride))
        by (nonlinear_arith)
        requires
            size >= 0,
            stride > 0,
    ;
}

/// The frame in a delivered chunk is published as it was delivered: its bytes
/// go into the slot whose turn it is, and the header has the negotiated size,
/// the chunk's stride, and where and how long the bytes are. A chunk without a
/// frame, or with one that is too large, changes nothing.
pub proof fn law_delivered_frame_is_published(
    shm: &ShmBuffer,
    header: &mut ShmHeader,
    frames: &mut [u8],
    chunk: VideoChunk,
    negotiated: Rectangle,
    mapped: Option<&[u8]>,
    found: Option<Frame>,
    max: nat,
)
    requires
        call_ensures(process_frame, (shm, header, frames, chunk, negotiated, mapped), found),
        shm@ == 32 + 2 * max || shm@ == 33 + 2 * max,
        32 + max <= u32::MAX,
        old(header).seq < u64::MAX,
        old(frames)@.len() >= 2 * max,
    ensures
        found is Some <==> mapped is Some && chunk.size > 0 && chunk.stride > 0 && chunk.offset
            + chunk.size <= mapped->0@.len() && (negotiated.width > 0 && negotiated.height > 0
            || chunk.stride >= 4 && chunk.size >= chunk.stride),
        found is None || chunk.size > max ==> *final(header) == *old(header) && final(frames)@
            == old(frames)@,
        found is Some && chunk.size <= max ==> {
            let start: int = if old(header).seq % 2 == 0 { max as int } else { 0 };
            &&& final(header).seq == old(header).seq + 1
            &&& negotiated.width > 0 && negotiated.height > 0 ==> final(header).width
                == negotiated.width && final(header).height == negotiated.height
            &&& negotiated.width == 0 || negotiated.height == 0 ==> {
                &&& 4 * final(header).width <= chunk.stride < 4 * final(header).width + 4
                &&& final(header).height * chunk.stride <= chunk.size
                &&& chunk.size < (final(header).height + 1) * chunk.stride
            }
            &&& final(header).stride == chunk.stride
            &&& final(header).data_offset == 32 + start
            &&& final(header).data_size == chunk.size
            &&& final(frames)@.len() == old(frames)@.len()
            &&& forall|i: int|
                0 <= i < old(frames)@.len() ==> #[trigger] final(frames)@[i] == if start <= i
                    < start + chunk.size {
                    mapped->0@[chunk.offset + (i - start)]
                } else {
                    old(frames)@[i]
                }
        },
        found matches Some(frame) ==> frame.stride == chunk.stride && frame.start == chunk.offset
            && frame.end == chunk.offset + chunk.size && (negotiated.width > 0
            && negotiated.height > 0 ==> frame.width == negotiated.width && frame.height
            == negotiated.height),
{
    assert(crate::shm::max_frame(shm@) == max);
    if chunk.stride > 0 {
        lemma_lines(chunk.size as int, chunk.stride as int);
    }
}

/// A size that a change of the format brings becomes the negotiated one; no
/// other change touches it.
pub proof fn law_size_of_the_format_is_taken(
    current: Rectangle,
    change: Option<VideoParam>,
    size: Rectangle,
)
    requires
        call_ensures(settle_size, (current, change), size),
    ensures
        if change is Some && change->0.is_format && change->0.size is Some {
            change->0.size == Some(size)
        } else {
            size == current
        },
{
}

/// Video is asked for at the wanted rate, first of all in the first of four
/// formats, at any size from one pixel to what a slot holds with four bytes
/// to the pixel, full high definition if possible.
pub proof fn law_video_is_asked_for_as_it_fits(fps: u32, params: VideoFormatParams)
    requires
        call_ensures(video_format_params, (fps,), params),
    ensures
        params.framerate.default.num == fps,
        params.framerate.default.denom == 1,
        params.framerate.min.num == 0,
        params.framerate.min.denom == 1,
        params.framerate.max.num == 1000,
        params.framerate.max.denom == 1,
        params.size.min.width == 1,
        params.size.min.height == 1,
        params.size.default.width == 1920,
        params.size.default.height == 1080,
        params.size.max.width == 7680,
        params.size.max.height == 4320,
        4 * params.size.max.width * params.size.max.height == MAX_FRAME,
        params.formats@.len() == 4,
        params.formats@[0] == params.format,
        params.format is BGRx,
        params.formats@[1] is RGBA,
        params.formats@[2] is RGBx,
        params.formats@[3] is RGB,
{
}

} // verus!

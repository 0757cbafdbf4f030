//! The shared memory region that frames are handed over in.
//!
//! The region holds a header and two frame slots:
//! `[header][frame slot 0][frame slot 1]`. A frame goes into the slot that the
//! reader is not reading; the header then says where it is.
use vstd::prelude::*;

use crate::audio::{encode, law_samples_survive_encoding, le_word, sample_bytes, words};

verus! {

/// The name of the shared memory object.
pub const SHM_NAME: &'static str = "/pipecap-frames";

/// Where shared memory objects appear in the file system.
pub const SHM_ROOT: &'static str = "/dev/shm";

/// Bytes of the header: `seq` takes 8, the other five fields 4 each, padded
/// to a multiple of 8.
pub const HEADER_SIZE: usize = 32;

/// Where in the region the field `seq` of the header lies, of 8 bytes.
pub const SEQ_AT: usize = 0;

/// Where the field `width` lies, of 4 bytes, as are those that follow.
pub const WIDTH_AT: usize = 8;

/// Where the field `height` lies.
pub const HEIGHT_AT: usize = 12;

/// Where the field `stride` lies.
pub const STRIDE_AT: usize = 16;

/// Where the field `data_offset` lies.
pub const DATA_OFFSET_AT: usize = 20;

/// Where the field `data_size` lies.
pub const DATA_SIZE_AT: usize = 24;

/// The header at the start of the region.
#[derive(Debug, Clone, Copy, PartialEq, Eq, Structural)]
pub struct ShmHeader {
    /// Incremented with each frame; the reader watches it for updates.
    pub seq: u64,
    pub width: u32,
    pub height: u32,
    pub stride: u32,
    /// Where in the region the current frame starts.
    pub data_offset: u32,
    /// How many bytes the current frame has.
    pub data_size: u32,
}

/// The header of a region that no frame was written to.
pub open spec fn first_header() -> ShmHeader {
    ShmHeader { seq: 0, width: 0, height: 0, stride: 0, data_offset: 0, data_size: 0 }
}

/// The words of 4 bytes that a header takes: two for `seq`, the lower one
/// first, one for each other field, and one of padding.
pub open spec fn header_words(header: ShmHeader) -> Seq<u32> {
    seq![
        (header.seq % 0x1_0000_0000) as u32,
        (header.seq / 0x1_0000_0000) as u32,
        header.width,
        header.height,
        header.stride,
        header.data_offset,
        header.data_size,
        0,
    ]
}

/// The bytes of a header, each word little-endian.
pub open spec fn header_bytes(header: ShmHeader) -> Seq<u8> {
    sample_bytes(header_words(header))
}

/// The header that a reader finds at the start of a region.
pub open spec fn header_in(region: Seq<u8>) -> ShmHeader {
    ShmHeader {
        seq: (le_word(region, SEQ_AT as int) + le_word(region, SEQ_AT + 4)
            * 0x1_0000_0000) as u64,
        width: le_word(region, WIDTH_AT as int),
        height: le_word(region, HEIGHT_AT as int),
        stride: le_word(region, STRIDE_AT as int),
        data_offset: le_word(region, DATA_OFFSET_AT as int),
        data_size: le_word(region, DATA_SIZE_AT as int),
    }
}

impl ShmHeader {
    /// The header of a region that no frame was written to.
    pub fn new() -> (header: ShmHeader)
        ensures
            header == first_header(),
    {
        ShmHeader { seq: 0, width: 0, height: 0, stride: 0, data_offset: 0, data_size: 0 }
    }

    /// The bytes of the header, as they lie in the region.
    pub fn to_bytes(&self) -> (bytes: Vec<u8>)
        ensures
            bytes@ == header_bytes(*self),
            bytes@.len() == HEADER_SIZE,
            header_in(bytes@) == *self,
    {
        let words: Vec<u32> = vec![
            (self.seq % 0x1_0000_0000) as u32,
            (self.seq / 0x1_0000_0000) as u32,
            self.width,
            self.height,
            self.stride,
            self.data_offset,
            self.data_size,
            0,
        ];
        assert(words@ =~= header_words(*self));
        proof {
            law_header_reads_back(*self);
        }
        encode(&words)
    }
}

/// The layout of a region.
#[derive(Debug)]
pub struct ShmBuffer {
    size: usize,
}

impl View for ShmBuffer {
    type V = nat;

    /// The bytes of the whole region.
    closed spec fn view(&self) -> nat {
        self.size as nat
    }
}

/// The path under which readers find the region.
pub fn shm_public_path() -> (path: String)
    ensures
        path@ == SHM_ROOT@ + SHM_NAME@,
{
    SHM_ROOT.to_owned().concat(SHM_NAME)
}

/// The bytes that a frame may have in a region of `size` bytes.
pub open spec fn max_frame(size: nat) -> nat {
    ((size - HEADER_SIZE) / 2) as nat
}

/// The slot for the next frame, where `seq` frames came before.
pub open spec fn next_slot(seq: u64) -> nat {
    ((seq + 1) % 2) as nat
}

/// Where the slot for the next frame starts, counted from the end of the header.
pub open spec fn slot_start(max: nat, seq: u64) -> nat {
    if next_slot(seq) == 0 {
        0
    } else {
        max
    }
}

/// The header after a frame has been published.
pub open spec fn published(
    max: nat,
    header: ShmHeader,
    width: u32,
    height: u32,
    stride: u32,
    len: nat,
) -> ShmHeader {
    ShmHeader {
        seq: (header.seq + 1) as u64,
        width,
        height,
        stride,
        data_offset: (HEADER_SIZE + slot_start(max, header.seq)) as u32,
        data_size: len as u32,
    }
}

/// `frames` with `data` in place of what was there from `at` on.
pub open spec fn overwritten(frames: Seq<u8>, at: int, data: Seq<u8>) -> Seq<u8> {
    frames.take(at) + data + frames.skip(at + data.len())
}

/// The frame that the header points at, in the bytes behind the header.
pub open spec fn current_frame(header: ShmHeader, frames: Seq<u8>) -> Seq<u8> {
    let start = header.data_offset - HEADER_SIZE;
    frames.subrange(start, start + header.data_size)
}

/// A region that is mapped: its layout, its descriptor, and the mapping, of type `M`.
#[derive(Debug)]
pub struct ShmRegion<M> {
    pub layout: ShmBuffer,
    pub fd: i32,
    pub mapping: M,
}

/// Whether making a region of `size` bytes may come to `result`. A descriptor
/// that leads to no mapping is closed. A mapping starts with the first header.
pub open spec fn region_made<
    M,
    E,
    O: FnOnce() -> Result<i32, E>,
    R: FnOnce(i32, usize) -> Result<(), E>,
    P: FnOnce(i32, usize) -> Result<M, E>,
    I: FnOnce(&M, Vec<u8>),
    C: FnOnce(i32),
>(
    size: usize,
    open: O,
    resize: R,
    map: P,
    write_header: I,
    close: C,
    result: Result<ShmRegion<M>, E>,
) -> bool {
    exists|opened: Result<i32, E>| #[trigger]
        call_ensures(open, (), opened) && match opened {
            Err(error) => result == Err::<ShmRegion<M>, E>(error),
            Ok(fd) => exists|resized: Result<(), E>| #[trigger]
                call_ensures(resize, (fd, size), resized) && match resized {
                    Err(error) => {
                        &&& call_ensures(close, (fd,), ())
                        &&& result == Err::<ShmRegion<M>, E>(error)
                    },
                    Ok(_) => exists|mapped: Result<M, E>| #[trigger]
                        call_ensures(map, (fd, size), mapped) && match mapped {
                            Err(error) => {
                                &&& call_ensures(close, (fd,), ())
                                &&& result == Err::<ShmRegion<M>, E>(error)
                            },
                            Ok(mapping) => {
                                &&& exists|bytes: Vec<u8>|
                                    bytes@ == header_bytes(first_header()) && #[trigger]
                                    call_ensures(write_header, (&mapping, bytes), ())
                                &&& result is Ok
                                &&& result->Ok_0.layout@ == size
                                &&& result->Ok_0.fd == fd
                                &&& result->Ok_0.mapping == mapping
                            },
                        },
                },
        }
}

impl ShmBuffer {
    #[verifier::type_invariant]
    spec fn holds_header(self) -> bool {
        self.size >= HEADER_SIZE
    }

    /// The layout of a region for frames of up to `max_frame_size` bytes: the
    /// header and two slots.
    pub fn new(max_frame_size: usize) -> (buffer: ShmBuffer)
        requires
            HEADER_SIZE + 2 * max_frame_size <= usize::MAX,
        ensures
            buffer@ == HEADER_SIZE + 2 * max_frame_size,
    {
        ShmBuffer { size: HEADER_SIZE + max_frame_size * 2 }
    }

    /// Makes a region for frames of up to `max_frame_size` bytes: opens it with
    /// `open`, gives it its size with `resize`, maps it with `map`, and puts
    /// the first header at its start with `write_header`. Where it cannot be
    /// sized or mapped, and only there, the descriptor is closed with `close`.
    pub fn create<
        M,
        E,
        O: FnOnce() -> Result<i32, E>,
        R: FnOnce(i32, usize) -> Result<(), E>,
        P: FnOnce(i32, usize) -> Result<M, E>,
        I: FnOnce(&M, Vec<u8>),
        C: FnOnce(i32),
    >(
        max_frame_size: usize,
        open: O,
        resize: R,
        map: P,
        write_header: I,
        close: C,
    ) -> (result: Result<ShmRegion<M>, E>)
        requires
            HEADER_SIZE + 2 * max_frame_size <= usize::MAX,
            call_requires(open, ()),
            forall|fd: i32, size: usize|
                call_ensures(open, (), Ok::<i32, E>(fd)) && size == HEADER_SIZE + 2
                    * max_frame_size ==> #[trigger] call_requires(resize, (fd, size)),
            forall|fd: i32, size: usize, done: ()| #[trigger]
                call_ensures(resize, (fd, size), Ok::<(), E>(done)) ==> call_requires(
                    map,
                    (fd, size),
                ),
            forall|fd: i32, size: usize, mapping: M, bytes: Vec<u8>|
                #[trigger] call_ensures(map, (fd, size), Ok::<M, E>(mapping)) && bytes@
                    == header_bytes(first_header()) ==> #[trigger] call_requires(
                    write_header,
                    (&mapping, bytes),
                ),
            forall|fd: i32, size: usize, error: E| #[trigger]
                call_ensures(resize, (fd, size), Err::<(), E>(error)) ==> call_requires(
                    close,
                    (fd,),
                ),
            forall|fd: i32, size: usize, error: E| #[trigger]
                call_ensures(map, (fd, size), Err::<M, E>(error)) ==> call_requires(close, (fd,)),
        ensures
            region_made(
                (HEADER_SIZE + 2 * max_frame_size) as usize,
                open,
                resize,
                map,
                write_header,
                close,
                result,
            ),
    {
        let layout = ShmBuffer::new(max_frame_size);
        let size: usize = layout.size();
        let fd: i32 = match open() {
            Ok(fd) => fd,
            Err(error) => {
                return Err(error);
            },
        };
        match resize(fd, size) {
            Ok(done) => {
                assert(call_ensures(resize, (fd, size), Ok::<(), E>(done)));
            },
            Err(error) => {
                close(fd);
                return Err(error);
            },
        }
        match map(fd, size) {
            Ok(mapping) => {
                write_header(&mapping, ShmHeader::new().to_bytes());
                Ok(ShmRegion { layout, fd, mapping })
            },
            Err(error) => {
                close(fd);
                Err(error)
            },
        }
    }

    /// The bytes of the whole region.
    pub fn size(&self) -> (size: usize)
        ensures
            size == self@,
            size >= HEADER_SIZE,
    {
        proof {
            use_type_invariant(self);
        }
        self.size
    }

    /// The bytes of the header.
    pub fn header_size(&self) -> (size: usize)
        ensures
            size == HEADER_SIZE,
    {
        HEADER_SIZE
    }

    /// The bytes that a frame may have.
    pub fn max_frame_size(&self) -> (size: usize)
        ensures
            size == max_frame(self@),
    {
        proof {
            use_type_invariant(self);
        }
        (self.size - self.header_size()) / 2
    }

    /// Writes a frame into the slot that is not being read, and the header
    /// that is to be published for it. `frames` is the region behind the
    /// header. A frame that does not fit is dropped.
    pub fn write_frame(
        &self,
        header: &mut ShmHeader,
        frames: &mut [u8],
        width: u32,
        height: u32,
        stride: u32,
        data: &[u8],
    ) -> (written: bool)
        requires
            old(header).seq < u64::MAX,
            old(frames)@.len() >= 2 * max_frame(self@),
        ensures
            written == (data@.len() <= max_frame(self@)),
            !written ==> *final(header) == *old(header) && final(frames)@ == old(frames)@,
            written ==> *final(header) == published(
                max_frame(self@),
                *old(header),
                width,
                height,
                stride,
                data@.len(),
            ),
            written ==> final(frames)@ == overwritten(
                old(frames)@,
                slot_start(max_frame(self@), old(header).seq) as int,
                data@,
            ),
    {
        let max: usize = self.max_frame_size();
        if data.len() > max {
            return false;
        }
        let seq: u64 = header.seq;
        let start: usize = if seq % 2 == 0 { max } else { 0 };
        let ghost before = frames@;
        proof {
            use_type_invariant(self);
        }
        for i in 0..data.len()
            invariant
                start + data@.len() <= before.len(),
                frames@ == overwritten(before, start as int, data@.take(i as int)),
        {
            assert(start + i < frames.len());
            frames[start + i] = data[i];
            assert(overwritten(before, start as int, data@.take(i as int)).update(
                start + i,
                data@[i as int],
            ) =~= overwritten(before, start as int, data@.take(i + 1)));
        }
        assert(data@.take(data@.len() as int) == data@);
        header.width = width;
        header.height = height;
        header.stride = stride;
        header.data_offset = (self.header_size() + start) as u32;
        header.data_size = data.len() as u32;
        header.seq = seq + 1;
        true
    }
}

/// Whether a header is one that was published: with nothing published yet, or
/// pointing at the slot of the last frame.
pub open spec fn well_published(max: nat, header: ShmHeader) -> bool {
    header.seq > 0 ==> {
        &&& header.data_offset == HEADER_SIZE + slot_start(max, (header.seq - 1) as u64)
        &&& header.data_size <= max
    }
}

/// A reader finds each field of a header at its place.
#[verifier::spinoff_prover]
pub proof fn law_header_reads_back(header: ShmHeader)
    ensures
        header_bytes(header).len() == HEADER_SIZE,
        header_in(header_bytes(header)) == header,
{
    let bytes = header_bytes(header);
    assert(bytes.len() == 32);
    lemma_header_word(header, 0);
    lemma_header_word(header, 1);
    lemma_header_word(header, 2);
    lemma_header_word(header, 3);
    lemma_header_word(header, 4);
    lemma_header_word(header, 5);
    lemma_header_word(header, 6);
    lemma_halves_join(header.seq);
}

/// Each word of a header lies at its place.
#[verifier::spinoff_prover]
proof fn lemma_header_word(header: ShmHeader, i: int)
    requires
        0 <= i < 8,
    ensures
        le_word(header_bytes(header), 4 * i) == header_words(header)[i],
{
    let all = header_words(header);
    assert(all.len() == 8);
    law_samples_survive_encoding(all);
    assert(words(header_bytes(header))[i] == le_word(header_bytes(header), 4 * i));
}

/// A number of 8 bytes is made of its two halves.
proof fn lemma_halves_join(n: u64)
    ensures
        (n % 0x1_0000_0000) as u32 + (n / 0x1_0000_0000) as u32 * 0x1_0000_0000 == n,
{
}

/// The first header tells a reader that there is no frame, and is one that
/// frames can be written after.
pub proof fn law_first_header_is_well_published(max: nat)
    ensures
        first_header().seq == 0,
        well_published(max, first_header()),
{
}

/// A reader that follows a published header finds the frame that was written.
pub proof fn law_frame_reads_back(
    max: nat,
    header: ShmHeader,
    frames: Seq<u8>,
    width: u32,
    height: u32,
    stride: u32,
    data: Seq<u8>,
)
    requires
        frames.len() >= 2 * max,
        data.len() <= max,
        HEADER_SIZE + slot_start(max, header.seq) <= u32::MAX,
        data.len() <= u32::MAX,
    ensures
        current_frame(
            published(max, header, width, height, stride, data.len()),
            overwritten(frames, slot_start(max, header.seq) as int, data),
        ) == data,
{
    let at = slot_start(max, header.seq) as int;
    assert(overwritten(frames, at, data).subrange(at, at + data.len()) =~= data);
}

/// Writing a frame leaves the frame that is being read as it is.
pub proof fn law_frame_being_read_is_kept(
    max: nat,
    header: ShmHeader,
    frames: Seq<u8>,
    data: Seq<u8>,
)
    requires
        frames.len() >= 2 * max,
        data.len() <= max,
        header.seq > 0,
        well_published(max, header),
    ensures
        current_frame(
            header,
            overwritten(frames, slot_start(max, header.seq) as int, data),
        ) == current_frame(header, frames),
{
    let at = slot_start(max, header.seq) as int;
    let start = header.data_offset - HEADER_SIZE;
    assert(start == slot_start(max, (header.seq - 1) as u64));
    assert(current_frame(header, overwritten(frames, at, data)) =~= current_frame(header, frames));
}

/// Every write publishes a header that points at the frame it wrote.
pub proof fn law_writes_keep_header(
    max: nat,
    header: ShmHeader,
    width: u32,
    height: u32,
    stride: u32,
    len: nat,
)
    requires
        header.seq < u64::MAX,
        len <= max,
        HEADER_SIZE + slot_start(max, header.seq) <= u32::MAX,
        len <= u32::MAX,
    ensures
        well_published(max, published(max, header, width, height, stride, len)),
{
}

/// A frame that is handed to `write_frame`.
pub struct FrameView {
    pub width: u32,
    pub height: u32,
    pub stride: u32,
    pub data: Seq<u8>,
}

/// The header and the slots after `writes`, one after the other. A frame that
/// does not fit changes nothing.
pub open spec fn after_writes(
    max: nat,
    header: ShmHeader,
    frames: Seq<u8>,
    writes: Seq<FrameView>,
) -> (ShmHeader, Seq<u8>)
    decreases writes.len(),
{
    if writes.len() == 0 {
        (header, frames)
    } else {
        let (before, slots) = after_writes(max, header, frames, writes.drop_last());
        let frame = writes.last();
        if frame.data.len() <= max {
            (
                published(
                    max,
                    before,
                    frame.width,
                    frame.height,
                    frame.stride,
                    frame.data.len(),
                ),
                overwritten(slots, slot_start(max, before.seq) as int, frame.data),
            )
        } else {
            (before, slots)
        }
    }
}

/// The frames that fit.
pub open spec fn accepted(max: nat, writes: Seq<FrameView>) -> Seq<FrameView> {
    writes.filter(|frame: FrameView| frame.data.len() <= max)
}

/// Over any run of writes, `seq` counts the frames that fit, and a reader
/// finds the last of them.
pub proof fn law_reader_finds_the_last_frame(
    max: nat,
    header: ShmHeader,
    frames: Seq<u8>,
    writes: Seq<FrameView>,
)
    requires
        frames.len() >= 2 * max,
        HEADER_SIZE + max <= u32::MAX,
        header.seq + writes.len() <= u64::MAX,
        well_published(max, header),
    ensures
        ({
            let (after, slots) = after_writes(max, header, frames, writes);
            let fitting = accepted(max, writes);
            &&& after.seq == header.seq + fitting.len()
            &&& fitting.len() <= writes.len()
            &&& slots.len() == frames.len()
            &&& well_published(max, after)
            &&& fitting.len() == 0 ==> after == header && slots == frames
            &&& fitting.len() > 0 ==> {
                &&& current_frame(after, slots) == fitting.last().data
                &&& after.width == fitting.last().width
                &&& after.height == fitting.last().height
                &&& after.stride == fitting.last().stride
            }
        }),
    decreases writes.len(),
{
    let fits = |frame: FrameView| frame.data.len() <= max;
    reveal(Seq::filter);
    if writes.len() > 0 {
        let earlier = writes.drop_last();
        let frame = writes.last();
        law_reader_finds_the_last_frame(max, header, frames, earlier);
        let (before, slots) = after_writes(max, header, frames, earlier);
        assert(accepted(max, writes) == if fits(frame) {
            accepted(max, earlier).push(frame)
        } else {
            accepted(max, earlier)
        });
        if fits(frame) {
            law_frame_reads_back(
                max,
                before,
                slots,
                frame.width,
                frame.height,
                frame.stride,
                frame.data,
            );
            law_writes_keep_header(
                max,
                before,
                frame.width,
                frame.height,
                frame.stride,
                frame.data.len(),
            );
        }
    }
}

/// Two frames in a row go into different slots, and a third into the first
/// one's again.
pub proof fn law_slots_alternate(seq: u64)
    requires
        seq < u64::MAX - 1,
    ensures
        next_slot(seq) != next_slot((seq + 1) as u64),
        next_slot((seq + 2) as u64) == next_slot(seq),
{
}

/// Both slots lie behind the header and inside the region, and do not overlap.
pub proof fn law_slots_fit(size: nat, seq: u64)
    requires
        size >= HEADER_SIZE,
        seq < u64::MAX,
    ensures
        HEADER_SIZE + slot_start(max_frame(size), seq) + max_frame(size) <= size,
        ({
            let a = slot_start(max_frame(size), seq);
            let b = slot_start(max_frame(size), (seq + 1) as u64);
            a + max_frame(size) <= b || b + max_frame(size) <= a
        }),
{
}

/// A region holds its header and two frames of the largest size, and its
/// layout tells so.
pub proof fn law_region_holds_two_frames(
    max_frame_size: usize,
    buffer: ShmBuffer,
    size: usize,
    header_size: usize,
    max: usize,
)
    requires
        call_ensures(ShmBuffer::new, (max_frame_size,), buffer),
        call_ensures(ShmBuffer::size, (&buffer,), size),
        call_ensures(ShmBuffer::header_size, (&buffer,), header_size),
        call_ensures(ShmBuffer::max_frame_size, (&buffer,), max),
    ensures
        header_size == 32,
        max == max_frame_size,
        size == header_size + max + max,
{
}

/// Where a written frame and its header lie: a frame is written if and only if
/// it fits into one of the two slots, and goes into the second one where an
/// even number of frames came before, else into the first one. The header then
/// has the frame's own measures, one more frame, and where the frame lies;
/// all other bytes stay.
pub proof fn law_written_frame_is_described(
    shm: &ShmBuffer,
    header: &mut ShmHeader,
    frames: &mut [u8],
    width: u32,
    height: u32,
    stride: u32,
    data: &[u8],
    written: bool,
    max: nat,
)
    requires
        call_ensures(
            ShmBuffer::write_frame,
            (shm, header, frames, width, height, stride, data),
            written,
        ),
        shm@ == 32 + 2 * max || shm@ == 33 + 2 * max,
        32 + max <= u32::MAX,
        old(header).seq < u64::MAX,
        old(frames)@.len() >= 2 * max,
    ensures
        written <==> data@.len() <= max,
        !written ==> *final(header) == *old(header) && final(frames)@ == old(frames)@,
        written ==> {
            let start: int = if old(header).seq % 2 == 0 { max as int } else { 0 };
            &&& final(header).seq == old(header).seq + 1
            &&& final(header).width == width
            &&& final(header).height == height
            &&& final(header).stride == stride
            &&& final(header).data_offset == 32 + start
            &&& final(header).data_size == data@.len()
            &&& final(frames)@.len() == old(frames)@.len()
            &&& forall|i: int|
                0 <= i < old(frames)@.len() ==> #[trigger] final(frames)@[i] == if start <= i
                    < start + data@.len() {
                    data@[i - start]
                } else {
                    old(frames)@[i]
                }
        },
{
    assert(max_frame(shm@) == max);
}

/// The bytes of a header: each field is the number that the bytes at its place
/// make up, the lowest first, and the padding is zero.
pub proof fn law_header_bytes_make_up_the_fields(header: &ShmHeader, b: Vec<u8>)
    requires
        call_ensures(ShmHeader::to_bytes, (header,), b),
    ensures
        b@.len() == 32,
        header.seq == b@[0] + b@[1] * 0x100 + b@[2] * 0x1_0000 + b@[3] * 0x100_0000 + b@[4]
            * 0x1_0000_0000 + b@[5] * 0x100_0000_0000 + b@[6] * 0x1_0000_0000_0000 + b@[7]
            * 0x100_0000_0000_0000,
        header.width == b@[8] + b@[9] * 0x100 + b@[10] * 0x1_0000 + b@[11] * 0x100_0000,
        header.height == b@[12] + b@[13] * 0x100 + b@[14] * 0x1_0000 + b@[15] * 0x100_0000,
        header.stride == b@[16] + b@[17] * 0x100 + b@[18] * 0x1_0000 + b@[19] * 0x100_0000,
        header.data_offset == b@[20] + b@[21] * 0x100 + b@[22] * 0x1_0000 + b@[23] * 0x100_0000,
        header.data_size == b@[24] + b@[25] * 0x100 + b@[26] * 0x1_0000 + b@[27] * 0x100_0000,
        0 == b@[28] + b@[29] * 0x100 + b@[30] * 0x1_0000 + b@[31] * 0x100_0000,
{
    lemma_header_word(*header, 0);
    lemma_header_word(*header, 1);
    lemma_header_word(*header, 2);
    lemma_header_word(*header, 3);
    lemma_header_word(*header, 4);
    lemma_header_word(*header, 5);
    lemma_header_word(*header, 6);
    lemma_header_word(*header, 7);
    lemma_halves_join(header.seq);
}

/// A region starts without a frame.
pub proof fn law_new_header_is_zero(header: ShmHeader)
    requires
        call_ensures(ShmHeader::new, (), header),
    ensures
        header.seq == 0,
        header.width == 0,
        header.height == 0,
        header.stride == 0,
        header.data_offset == 0,
        header.data_size == 0,
{
}

/// Where readers find the region.
pub proof fn law_region_has_its_public_path(path: String)
    requires
        call_ensures(shm_public_path, (), path),
    ensures
        path@ == "/dev/shm/pipecap-frames"@,
{
    reveal_strlit("/dev/shm");
    reveal_strlit("/pipecap-frames");
    reveal_strlit("/dev/shm/pipecap-frames");
    assert(path@ =~= "/dev/shm/pipecap-frames"@);
}

/// A region comes to be only by opening, sizing and mapping it whole, and then
/// starts with 32 zeros. Where that fails, the failure is told, and a
/// descriptor that was opened is closed.
pub proof fn law_region_is_made_or_given_up<
    M,
    E,
    O: FnOnce() -> Result<i32, E>,
    R: FnOnce(i32, usize) -> Result<(), E>,
    P: FnOnce(i32, usize) -> Result<M, E>,
    I: FnOnce(&M, Vec<u8>),
    C: FnOnce(i32),
>(
    max_frame_size: usize,
    open: O,
    resize: R,
    map: P,
    write_header: I,
    close: C,
    result: Result<ShmRegion<M>, E>,
)
    requires
        call_ensures(
            ShmBuffer::create::<M, E, O, R, P, I, C>,
            (max_frame_size, open, resize, map, write_header, close),
            result,
        ),
        32 + 2 * max_frame_size <= usize::MAX,
    ensures
        result matches Ok(region) ==> {
            &&& region.layout@ == 32 + 2 * max_frame_size
            &&& call_ensures(open, (), Ok::<i32, E>(region.fd))
            &&& exists|done: ()| #[trigger]
                call_ensures(
                    resize,
                    (region.fd, (32 + 2 * max_frame_size) as usize),
                    Ok::<(), E>(done),
                )
            &&& call_ensures(
                map,
                (region.fd, (32 + 2 * max_frame_size) as usize),
                Ok::<M, E>(region.mapping),
            )
            &&& exists|bytes: Vec<u8>| #[trigger]
                call_ensures(write_header, (&region.mapping, bytes), ()) && bytes@.len() == 32
                    && forall|i: int| 0 <= i < 32 ==> #[trigger] bytes@[i] == 0
        },
        result matches Err(error) ==> {
            ||| call_ensures(open, (), Err::<i32, E>(error))
            ||| exists|fd: i32| #[trigger]
                call_ensures(close, (fd,), ()) && call_ensures(open, (), Ok::<i32, E>(fd)) && (
                call_ensures(
                    resize,
                    (fd, (32 + 2 * max_frame_size) as usize),
                    Err::<(), E>(error),
                ) || call_ensures(
                    map,
                    (fd, (32 + 2 * max_frame_size) as usize),
                    Err::<M, E>(error),
                ))
        },
{
    let size = (32 + 2 * max_frame_size) as usize;
    let opened = choose|opened: Result<i32, E>| #[trigger]
        call_ensures(open, (), opened) && match opened {
            Err(error) => result == Err::<ShmRegion<M>, E>(error),
            Ok(fd) => exists|resized: Result<(), E>| #[trigger]
                call_ensures(resize, (fd, size), resized) && match resized {
                    Err(error) => {
                        &&& call_ensures(close, (fd,), ())
                        &&& result == Err::<ShmRegion<M>, E>(error)
                    },
                    Ok(_) => exists|mapped: Result<M, E>| #[trigger]
                        call_ensures(map, (fd, size), mapped) && match mapped {
                            Err(error) => {
                                &&& call_ensures(close, (fd,), ())
                                &&& result == Err::<ShmRegion<M>, E>(error)
                            },
                            Ok(mapping) => {
                                &&& exists|bytes: Vec<u8>|
                                    bytes@ == header_bytes(first_header()) && #[trigger]
                                    call_ensures(write_header, (&mapping, bytes), ())
                                &&& result is Ok
                                &&& result->Ok_0.layout@ == size
                                &&& result->Ok_0.fd == fd
                                &&& result->Ok_0.mapping == mapping
                            },
                        },
                },
        };
    if let Ok(fd) = opened {
        let resized = choose|resized: Result<(), E>| #[trigger]
            call_ensures(resize, (fd, size), resized) && match resized {
                Err(error) => {
                    &&& call_ensures(close, (fd,), ())
                    &&& result == Err::<ShmRegion<M>, E>(error)
                },
                Ok(_) => exists|mapped: Result<M, E>| #[trigger]
                    call_ensures(map, (fd, size), mapped) && match mapped {
                        Err(error) => {
                            &&& call_ensures(close, (fd,), ())
                            &&& result == Err::<ShmRegion<M>, E>(error)
                        },
                        Ok(mapping) => {
                            &&& exists|bytes: Vec<u8>|
                                bytes@ == header_bytes(first_header()) && #[trigger] call_ensures(
                                    write_header,
                                    (&mapping, bytes),
                                    (),
                                )
                            &&& result is Ok
                            &&& result->Ok_0.layout@ == size
                            &&& result->Ok_0.fd == fd
                            &&& result->Ok_0.mapping == mapping
                        },
                    },
            };
        if let Ok(done) = resized {
            assert(call_ensures(resize, (fd, size), Ok::<(), E>(done)));
            if let Ok(region) = result {
                let bytes = choose|bytes: Vec<u8>|
                    bytes@ == header_bytes(first_header()) && #[trigger] call_ensures(
                        write_header,
                        (&region.mapping, bytes),
                        (),
                    );
                assert forall|i: int| 0 <= i < 32 implies #[trigger] bytes@[i] == 0 by {
                    assert(header_words(first_header())[i / 4] == 0);
                }
            }
        }
    }
}

} // verus!

//! Audio capture.
//!
//! What is captured:
//!   - `System`: the sink monitor, all desktop audio
//!   - `AppFromVideoNode`, `AppByName`: one application, found by watching the
//!     registry
//!   - `SystemExcludePids`: every output stream but those of the given
//!     processes, mixed, so that a recording application does not hear itself
//!
//! Samples are single precision numbers, held as their bit patterns.
use vstd::prelude::*;

pub mod app;
pub mod mix;
pub mod resolve;
pub mod sink_monitor;
pub mod system_exclude;

verus! {

/// Largest number of samples that a queue holds: two seconds of 48 kHz stereo.
pub const MAX_SAMPLES: usize = 192000;

/// The source id of a capture that has a single source.
pub const SINGLE_SOURCE: u32 = 0;

/// Interleaved samples handed to the reader.
#[derive(Debug)]
pub struct AudioBuffer {
    pub channels: u32,
    pub sample_rate: u32,
    pub data: Vec<u32>,
}

/// What to capture.
#[derive(Debug)]
pub enum AudioTarget {
    System,
    AppFromVideoNode(u32),
    AppByName(String),
    SystemExcludePids(Vec<u32>),
}

/// How samples are represented.
#[derive(Debug, Clone, Copy, PartialEq, Eq, Structural)]
pub enum SampleFormat {
    /// Little-endian single precision numbers.
    F32LE,
}

/// The raw audio that a capture asks for. A rate or a number of channels of
/// zero leaves the choice to the graph.
#[derive(Debug, Clone, Copy, PartialEq, Eq, Structural)]
pub struct AudioFormatParams {
    pub format: SampleFormat,
    pub rate: u32,
    pub channels: u32,
}

/// The raw audio that a capture asks for.
pub fn audio_format_params() -> (params: AudioFormatParams)
    ensures
        params == (AudioFormatParams { format: SampleFormat::F32LE, rate: 0, channels: 0 }),
{
    AudioFormatParams { format: SampleFormat::F32LE, rate: 0, channels: 0 }
}

/// What a target tells.
pub enum TargetView {
    System,
    AppFromVideoNode(u32),
    AppByName(Seq<char>),
    SystemExcludePids(Seq<u32>),
}

impl View for AudioTarget {
    type V = TargetView;

    open spec fn view(&self) -> TargetView {
        match self {
            AudioTarget::System => TargetView::System,
            AudioTarget::AppFromVideoNode(id) => TargetView::AppFromVideoNode(*id),
            AudioTarget::AppByName(name) => TargetView::AppByName(name@),
            AudioTarget::SystemExcludePids(pids) => TargetView::SystemExcludePids(pids@),
        }
    }
}

/// Control message to a running capture loop.
#[derive(Debug)]
pub enum AudioCtl {
    Stop,
}

/// What a stream says when one of its parameters changed.
#[derive(Debug, Clone, Copy)]
pub struct ParamChange {
    /// Whether the parameter is the format.
    pub is_format: bool,
    /// Whether the format is raw audio, if its kind could be read.
    pub raw_audio: Option<bool>,
    /// The channels and the sample rate, if they could be read.
    pub audio: Option<(u32, u32)>,
}

/// The channels and the sample rate that a change settles on. A format whose
/// kind cannot be read is taken for audio.
pub open spec fn settled_format(change: Option<ParamChange>) -> Option<(u32, u32)> {
    match change {
        Some(change) => if change.is_format && change.raw_audio != Some(false) {
            change.audio
        } else {
            None
        },
        None => None,
    }
}

/// The channels and the sample rate that a change settles on.
pub fn settle_format(change: Option<ParamChange>) -> (format: Option<(u32, u32)>)
    ensures
        format == settled_format(change),
{
    match change {
        Some(change) => {
            let raw_audio = match change.raw_audio {
                Some(raw_audio) => raw_audio,
                None => true,
            };
            if change.is_format && raw_audio {
                change.audio
            } else {
                None
            }
        },
        None => None,
    }
}

/// The little-endian number in the four bytes from `at` on.
pub open spec fn le_word(bytes: Seq<u8>, at: int) -> u32 {
    (bytes[at] + bytes[at + 1] * 0x100 + bytes[at + 2] * 0x1_0000 + bytes[at + 3]
        * 0x100_0000) as u32
}

/// The samples in a run of bytes, four bytes each; a rest of one to three
/// bytes is no sample.
pub open spec fn words(bytes: Seq<u8>) -> Seq<u32> {
    Seq::new(bytes.len() / 4, |i: int| le_word(bytes, 4 * i))
}

/// Byte `k` of the little-endian form of `word`.
pub open spec fn le_byte(word: u32, k: int) -> u8 {
    if k == 0 {
        (word % 0x100) as u8
    } else if k == 1 {
        (word / 0x100 % 0x100) as u8
    } else if k == 2 {
        (word / 0x1_0000 % 0x100) as u8
    } else {
        (word / 0x100_0000) as u8
    }
}

/// The bytes of a run of samples, four bytes each.
pub open spec fn sample_bytes(samples: Seq<u32>) -> Seq<u8> {
    Seq::new(4 * samples.len(), |k: int| le_byte(samples[k / 4], k % 4))
}

/// The samples in a run of bytes.
fn decode(bytes: &[u8]) -> (samples: Vec<u32>)
    ensures
        samples@ == words(bytes@),
{
    let n: usize = bytes.len() / 4;
    let mut samples: Vec<u32> = Vec::with_capacity(n);
    for i in 0..n
        invariant
            n == bytes@.len() / 4,
            samples@ == words(bytes@).take(i as int),
    {
        assert(4 * i + 4 <= bytes.len());
        let at: usize = 4 * i;
        let word: u32 = bytes[at] as u32 + bytes[at + 1] as u32 * 0x100 + bytes[at + 2] as u32
            * 0x1_0000 + bytes[at + 3] as u32 * 0x100_0000;
        samples.push(word);
    }
    samples
}

/// The bytes of a run of samples.
pub fn encode(samples: &[u32]) -> (bytes: Vec<u8>)
    ensures
        bytes@ == sample_bytes(samples@),
{
    let mut bytes: Vec<u8> = Vec::new();
    for i in 0..samples.len()
        invariant
            bytes@ == sample_bytes(samples@).take(4 * i),
    {
        let word: u32 = samples[i];
        let ghost done = bytes@;
        bytes.push((word % 0x100) as u8);
        bytes.push((word / 0x100 % 0x100) as u8);
        bytes.push((word / 0x1_0000 % 0x100) as u8);
        bytes.push((word / 0x100_0000) as u8);
        assert(bytes@ =~= sample_bytes(samples@).take(4 * (i + 1))) by {
            assert forall|k: int| 0 <= k < 4 * (i + 1) implies bytes@[k] == sample_bytes(
                samples@,
            )[k] by {
                if k < 4 * i {
                    assert(done[k] == sample_bytes(samples@)[k]);
                } else {
                    assert(k / 4 == i && k % 4 == k - 4 * i);
                }
            }
        }
    }
    bytes
}

/// Reads a chunk of bytes, which starts at `address`, as samples. `None` if
/// the bytes are not aligned to samples at both ends; the chunk is then to be
/// dropped.
pub fn bytes_as_f32(bytes: &[u8], address: usize) -> (samples: Option<Vec<u32>>)
    ensures
        samples is Some <==> bytes@.len() == 0 || address % 4 == 0 && bytes@.len() % 4 == 0,
        samples matches Some(samples) ==> samples@ == words(bytes@),
{
    if bytes.len() == 0 || address % 4 == 0 && bytes.len() % 4 == 0 {
        Some(decode(bytes))
    } else {
        None
    }
}

/// A word and its four bytes determine one another.
proof fn lemma_word_of_bytes(b0: u8, b1: u8, b2: u8, b3: u8, w: u32)
    requires
        w == b0 + b1 * 0x100 + b2 * 0x1_0000 + b3 * 0x100_0000,
    ensures
        le_byte(w, 0) == b0,
        le_byte(w, 1) == b1,
        le_byte(w, 2) == b2,
        le_byte(w, 3) == b3,
{
    assert(w / 0x100 == b1 + b2 * 0x100 + b3 * 0x1_0000);
    assert(w / 0x1_0000 == b2 + b3 * 0x100);
    assert(w / 0x100_0000 == b3);
}

/// Samples survive the way through their bytes.
pub proof fn law_samples_survive_encoding(samples: Seq<u32>)
    ensures
        words(sample_bytes(samples)) == samples,
{
    let bytes = sample_bytes(samples);
    assert forall|i: int| 0 <= i < samples.len() implies le_word(bytes, 4 * i) == samples[i] by {
        let w = samples[i];
        assert(bytes[4 * i] == le_byte(w, 0));
        assert(bytes[4 * i + 1] == le_byte(w, 1));
        assert(bytes[4 * i + 2] == le_byte(w, 2));
        assert(bytes[4 * i + 3] == le_byte(w, 3));
    }
    assert(words(bytes) =~= samples);
}

/// Whole samples of bytes survive the way through samples.
pub proof fn law_bytes_survive_decoding(bytes: Seq<u8>)
    requires
        bytes.len() % 4 == 0,
    ensures
        sample_bytes(words(bytes)) == bytes,
{
    assert forall|k: int| 0 <= k < bytes.len() implies sample_bytes(words(bytes))[k]
        == bytes[k] by {
        let i = k / 4;
        let w = le_word(bytes, 4 * i);
        assert(words(bytes)[i] == w);
        assert(sample_bytes(words(bytes))[k] == le_byte(w, k % 4));
        lemma_word_of_bytes(
            bytes[4 * i],
            bytes[4 * i + 1],
            bytes[4 * i + 2],
            bytes[4 * i + 3],
            w,
        );
    }
    assert(sample_bytes(words(bytes)) =~= bytes);
}

/// Each sample is the number that its four bytes make up, the lowest first.
pub proof fn law_bytes_make_up_their_sample(samples: &[u32], bytes: Vec<u8>, i: int)
    requires
        call_ensures(encode, (samples,), bytes),
        0 <= i < samples@.len(),
    ensures
        bytes@.len() == 4 * samples@.len(),
        samples@[i] == bytes@[4 * i] + bytes@[4 * i + 1] * 256 + bytes@[4 * i + 2] * 65536
            + bytes@[4 * i + 3] * 16777216,
{
    lemma_sample_of_bytes(samples@, i);
}

/// A sample is the number that its four bytes make up.
pub(crate) proof fn lemma_sample_of_bytes(samples: Seq<u32>, i: int)
    requires
        0 <= i < samples.len(),
    ensures
        ({
            let bytes = sample_bytes(samples);
            samples[i] == bytes[4 * i] + bytes[4 * i + 1] * 256 + bytes[4 * i + 2] * 65536
                + bytes[4 * i + 3] * 16777216
        }),
{
    let bytes = sample_bytes(samples);
    let w = samples[i];
    assert(bytes[4 * i] == le_byte(w, 0));
    assert(bytes[4 * i + 1] == le_byte(w, 1));
    assert(bytes[4 * i + 2] == le_byte(w, 2));
    assert(bytes[4 * i + 3] == le_byte(w, 3));
}

/// Bytes are read as samples if and only if they are none, or start and end on
/// a sample; then each four of them are read as the number they make up.
pub proof fn law_aligned_bytes_are_read(bytes: &[u8], address: usize, samples: Option<Vec<u32>>)
    requires
        call_ensures(bytes_as_f32, (bytes, address), samples),
    ensures
        samples is Some <==> bytes@.len() == 0 || address % 4 == 0 && bytes@.len() % 4 == 0,
        samples matches Some(samples) ==> 4 * samples@.len() == bytes@.len(),
        samples matches Some(samples) ==> forall|i: int|
            0 <= i < samples@.len() ==> #[trigger] samples@[i] == bytes@[4 * i] + bytes@[4 * i + 1]
                * 256 + bytes@[4 * i + 2] * 65536 + bytes@[4 * i + 3] * 16777216,
{
}

/// A change settles on a format if and only if it is one of the format, the
/// format is not known to be anything but raw audio, and it could be read; it
/// settles on what was read.
pub proof fn law_format_settles_on_what_was_read(
    change: Option<ParamChange>,
    format: Option<(u32, u32)>,
    channels: u32,
    rate: u32,
)
    requires
        call_ensures(settle_format, (change,), format),
    ensures
        format == Some((channels, rate)) <==> change is Some && change->0.is_format
            && change->0.raw_audio != Some(false) && change->0.audio == Some((channels, rate)),
{
}

/// No format is asked for but single precision, little-endian, with the rate
/// and the channels left to the graph.
pub proof fn law_single_precision_is_asked_for(params: AudioFormatParams)
    requires
        call_ensures(audio_format_params, (), params),
    ensures
        params.format is F32LE,
        params.rate == 0,
        params.channels == 0,
{
}

} // verus!

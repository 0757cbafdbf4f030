//! Capture of the sink monitor into a single buffer.
use vstd::prelude::*;

use crate::audio::{decode, settle_format, AudioBuffer, ParamChange, MAX_SAMPLES};

verus! {

/// The buffer of a capture that has one stream, and the flag that stops it.
#[derive(Debug)]
pub struct AudioCapturer {
    buffer: Vec<u32>,
    channels: u32,
    sample_rate: u32,
    stop_flag: bool,
}

/// What a capturer holds.
#[verifier::ext_equal]
pub struct CapturerView {
    pub buffer: Seq<u32>,
    pub channels: u32,
    pub sample_rate: u32,
    pub stop_flag: bool,
}

impl View for AudioCapturer {
    type V = CapturerView;

    closed spec fn view(&self) -> CapturerView {
        CapturerView {
            buffer: self.buffer@,
            channels: self.channels,
            sample_rate: self.sample_rate,
            stop_flag: self.stop_flag,
        }
    }
}

/// The samples that a chunk of `size` bytes brings; none if it claims more
/// than was mapped.
pub open spec fn chunk_samples(mapped: Seq<u8>, size: nat) -> Seq<u32> {
    if size <= mapped.len() {
        crate::audio::words(mapped.take(size as int))
    } else {
        Seq::empty()
    }
}

impl AudioCapturer {
    #[verifier::type_invariant]
    spec fn bounded(self) -> bool {
        self.buffer@.len() <= MAX_SAMPLES
    }

    /// An empty buffer, at 48 kHz stereo until told otherwise.
    pub fn new() -> (capturer: AudioCapturer)
        ensures
            capturer@ == (CapturerView {
                buffer: Seq::empty(),
                channels: 2,
                sample_rate: 48000,
                stop_flag: false,
            }),
    {
        AudioCapturer { buffer: Vec::new(), channels: 2, sample_rate: 48000, stop_flag: false }
    }

    /// A parameter of the stream changed, or was cleared.
    pub fn on_param_changed(&mut self, change: Option<ParamChange>)
        ensures
            final(self)@ == match crate::audio::settled_format(change) {
                Some((channels, sample_rate)) => CapturerView {
                    channels,
                    sample_rate,
                    ..old(self)@
                },
                None => old(self)@,
            },
    {
        proof {
            use_type_invariant(&*self);
        }
        if let Some((channels, sample_rate)) = settle_format(change) {
            self.channels = channels;
            self.sample_rate = sample_rate;
        }
    }

    /// Appends the samples in the first `size` of the `mapped` bytes. Where
    /// the buffer grows past `MAX_SAMPLES`, the oldest samples are dropped.
    pub fn push_chunk(&mut self, mapped: &[u8], size: usize)
        ensures
            final(self)@ == (CapturerView {
                buffer: crate::audio::mix::newest(
                    old(self)@.buffer + chunk_samples(mapped@, size as nat),
                ),
                ..old(self)@
            }),
            size == 0 || size > mapped@.len() ==> final(self)@ == old(self)@,
            final(self)@.buffer.len() <= MAX_SAMPLES,
    {
        proof {
            use_type_invariant(&*self);
        }
        let ghost before = self@.buffer;
        if size == 0 || size > mapped.len() {
            assert(before + chunk_samples(mapped@, size as nat) =~= before);
            return;
        }
        let mut samples = decode(vstd::slice::slice_subrange(mapped, 0, size));
        let mut buffer: Vec<u32> = Vec::new();
        std::mem::swap(&mut buffer, &mut self.buffer);
        buffer.append(&mut samples);
        let len: usize = buffer.len();
        if len > MAX_SAMPLES {
            buffer = buffer.split_off(len - MAX_SAMPLES);
        }
        self.buffer = buffer;
    }

    /// Takes all that has come in; `None` if nothing has.
    pub fn read_audio(&mut self) -> (taken: Option<AudioBuffer>)
        ensures
            taken is Some <==> old(self)@.buffer.len() > 0,
            taken matches Some(taken) ==> {
                &&& taken.data@ == old(self)@.buffer
                &&& taken.channels == old(self)@.channels
                &&& taken.sample_rate == old(self)@.sample_rate
            },
            final(self)@ == (CapturerView { buffer: Seq::empty(), ..old(self)@ }),
    {
        if self.buffer.len() == 0 {
            return None;
        }
        let mut data: Vec<u32> = Vec::new();
        std::mem::swap(&mut data, &mut self.buffer);
        Some(AudioBuffer { channels: self.channels, sample_rate: self.sample_rate, data })
    }

    /// Whether the capture has not been stopped.
    pub fn is_active(&self) -> (r: bool)
        ensures
            r == !self@.stop_flag,
    {
        !self.stop_flag
    }

    /// Stops the capture.
    pub fn stop(&mut self)
        ensures
            final(self)@ == (CapturerView { stop_flag: true, ..old(self)@ }),
    {
        proof {
            use_type_invariant(&*self);
        }
        self.stop_flag = true;
    }
}

/// A chunk that holds no more than was mapped adds, behind what has come in,
/// the numbers that each four of its bytes make up, and the oldest samples
/// give way where there are more than two seconds' worth; no other chunk
/// changes anything, and none changes the format.
pub proof fn law_chunk_appends(capturer: &mut AudioCapturer, mapped: &[u8], size: usize)
    requires
        call_ensures(AudioCapturer::push_chunk, (capturer, mapped, size), ()),
    ensures
        size == 0 || size > mapped@.len() ==> final(capturer)@ == old(capturer)@,
        final(capturer)@.channels == old(capturer)@.channels,
        final(capturer)@.sample_rate == old(capturer)@.sample_rate,
        final(capturer)@.stop_flag == old(capturer)@.stop_flag,
        0 < size <= mapped@.len() ==> {
            let (before, after) = (old(capturer)@.buffer, final(capturer)@.buffer);
            let total = before.len() + size / 4;
            &&& after.len() == if total <= 192000 {
                total as int
            } else {
                192000
            }
            &&& total <= 192000 ==> after.take(before.len() as int) == before
            &&& forall|i: int|
                0 <= i < size / 4 && i < after.len() ==> {
                    let at = 4 * (size / 4 - 1 - i);
                    #[trigger] after[after.len() - 1 - i] == mapped@[at] + mapped@[at + 1] * 256
                        + mapped@[at + 2] * 65536 + mapped@[at + 3] * 16777216
                }
            &&& forall|i: int|
                size / 4 <= i < after.len() ==> #[trigger] after[after.len() - 1 - i]
                    == before[before.len() - 1 - (i - size / 4)]
        },
{
    if 0 < size <= mapped@.len() {
        let (before, after) = (old(capturer)@.buffer, final(capturer)@.buffer);
        let samples = chunk_samples(mapped@, size as nat);
        assert(samples.len() == size / 4);
        if before.len() + samples.len() <= MAX_SAMPLES {
            assert(after.take(before.len() as int) =~= before);
        }
        assert forall|i: int| 0 <= i < size / 4 && i < after.len() implies ({
            let at = 4 * (size / 4 - 1 - i);
            #[trigger] after[after.len() - 1 - i] == mapped@[at] + mapped@[at + 1] * 256
                + mapped@[at + 2] * 65536 + mapped@[at + 3] * 16777216
        }) by {
            let k = samples.len() - 1 - i;
            assert(after[after.len() - 1 - i] == samples[k]);
        }
    }
}

/// What has come in is handed out whole, labelled with the format, and then
/// gone; nothing is handed out only where nothing has come in.
pub proof fn law_all_is_handed_out_once(
    capturer: &mut AudioCapturer,
    taken: Option<AudioBuffer>,
)
    requires
        call_ensures(AudioCapturer::read_audio, (capturer,), taken),
    ensures
        taken is None <==> old(capturer)@.buffer.len() == 0,
        taken matches Some(taken) ==> taken.data@ == old(capturer)@.buffer && taken.channels
            == old(capturer)@.channels && taken.sample_rate == old(capturer)@.sample_rate,
        final(capturer)@.buffer.len() == 0,
        final(capturer)@.channels == old(capturer)@.channels,
        final(capturer)@.sample_rate == old(capturer)@.sample_rate,
        final(capturer)@.stop_flag == old(capturer)@.stop_flag,
{
}

/// A change of the format that could be read, and is not known to be anything
/// but raw audio, becomes the capturer's; no other change touches anything.
pub proof fn law_readable_format_is_taken(
    capturer: &mut AudioCapturer,
    change: Option<ParamChange>,
)
    requires
        call_ensures(AudioCapturer::on_param_changed, (capturer, change), ()),
    ensures
        final(capturer)@.buffer == old(capturer)@.buffer,
        final(capturer)@.stop_flag == old(capturer)@.stop_flag,
        if change is Some && change->0.is_format && change->0.raw_audio != Some(false)
            && change->0.audio is Some {
            change->0.audio == Some((final(capturer)@.channels, final(capturer)@.sample_rate))
        } else {
            final(capturer)@ == old(capturer)@
        },
{
}

/// A capturer is active from the start, and until it is stopped.
pub proof fn law_active_until_stopped(
    fresh: AudioCapturer,
    at_first: bool,
    stopped: &mut AudioCapturer,
    afterwards: bool,
)
    requires
        call_ensures(AudioCapturer::new, (), fresh),
        call_ensures(AudioCapturer::is_active, (&fresh,), at_first),
        call_ensures(AudioCapturer::stop, (stopped,), ()),
        call_ensures(AudioCapturer::is_active, (&*final(stopped),), afterwards),
    ensures
        at_first,
        fresh@.buffer.len() == 0,
        fresh@.channels == 2,
        fresh@.sample_rate == 48000,
        !afterwards,
        final(stopped)@.buffer == old(stopped)@.buffer,
{
}

} // verus!

//! The capture session: what the user picked, and the captures that run.
use vstd::prelude::*;

use crate::audio;
use crate::audio::resolve;
use crate::audio::{AudioBuffer, AudioTarget, TargetView};
use crate::portal::{PortalHandle, StreamInfo};
use crate::registry::Global;
use crate::release::{release, Released};
use crate::shm;
use crate::text;

verus! {

/// The source type of a window.
pub const WINDOW: u32 = 2;

/// The name that selects all desktop audio.
pub const TARGET_SYSTEM: &'static str = "system";

/// The name that turns audio off.
pub const TARGET_NONE: &'static str = "none";

/// A stream that the user picked.
#[derive(Debug, Clone, Copy, PartialEq, Eq, Structural)]
pub struct PortalStream {
    pub node_id: u32,
    /// 1 = monitor, 2 = window.
    pub source_type: u32,
    pub width: i32,
    pub height: i32,
}

/// What the user picked.
#[derive(Debug)]
pub struct PickerResult {
    pub streams: Vec<PortalStream>,
}

/// How to capture.
#[derive(Debug)]
pub struct CaptureOptions {
    pub node_id: u32,
    pub fps: u32,
    pub audio: bool,
    /// 1 = monitor, 2 = window.
    pub source_type: u32,
    /// Processes whose audio is left out where all desktop audio is captured.
    pub exclude_pids: Option<Vec<u32>>,
}

/// A capture that was started.
#[derive(Debug)]
pub struct CaptureInfo {
    pub shm_path: String,
    pub shm_size: u32,
    pub header_size: u32,
    pub width: u32,
    pub height: u32,
    /// The application whose window is captured, if it could be told.
    pub detected_app: Option<String>,
}

/// Audio for the reader: the bytes of interleaved little-endian single
/// precision samples.
#[derive(Debug)]
pub struct AudioChunk {
    pub channels: u32,
    pub sample_rate: u32,
    pub data: Vec<u8>,
}

/// An application that plays audio.
#[derive(Debug)]
pub struct AudioAppInfo {
    pub name: String,
    pub binary: String,
}

/// What went wrong.
#[derive(Debug)]
pub enum CaptureError<E> {
    /// The portal failed.
    Portal(E),
    /// Nothing was picked before.
    NoPicker,
    /// What was picked has been captured already.
    FdConsumed,
    /// The video capture failed.
    Video(E),
    /// The audio capture failed. A video capture goes on.
    Audio(E),
    /// The registry could not be asked for the applications.
    ListApps(E),
}

/// The processes to leave out: those given, but for the number zero.
pub open spec fn excluded_pids(options: CaptureOptions) -> Seq<u32> {
    match options.exclude_pids {
        Some(pids) => pids@.filter(|pid: u32| pid != 0),
        None => Seq::empty(),
    }
}

/// All desktop audio, but for the processes to leave out.
pub open spec fn system_target(options: CaptureOptions) -> TargetView {
    if excluded_pids(options).len() == 0 {
        TargetView::System
    } else {
        TargetView::SystemExcludePids(excluded_pids(options))
    }
}

/// The audio to capture: for a window whose application could be told that
/// application's, else all desktop audio.
pub open spec fn audio_target(options: CaptureOptions, detected: bool) -> TargetView {
    if options.source_type == WINDOW && detected {
        TargetView::AppFromVideoNode(options.node_id)
    } else {
        system_target(options)
    }
}

/// The audio that a name selects; `None` turns audio off.
pub open spec fn named_target(name: Seq<char>) -> Option<TargetView> {
    if name == TARGET_NONE@ {
        None
    } else if name == TARGET_SYSTEM@ {
        Some(TargetView::System)
    } else {
        Some(TargetView::AppByName(name))
    }
}

/// The processes to leave out.
fn pids_to_exclude(options: &CaptureOptions) -> (pids: Vec<u32>)
    ensures
        pids@ == excluded_pids(*options),
{
    let mut pids: Vec<u32> = Vec::new();
    if let Some(given) = &options.exclude_pids {
        let ghost keep = |pid: u32| pid != 0;
        for i in 0..given.len()
            invariant
                pids@ == given@.take(i as int).filter(keep),
                keep == (|pid: u32| pid != 0),
        {
            reveal_with_fuel(Seq::filter, 2);
            assert(given@.take(i + 1).drop_last() == given@.take(i as int));
            if given[i] != 0 {
                pids.push(given[i]);
            }
        }
        assert(given@.take(given@.len() as int) == given@);
    }
    pids
}

/// The audio to capture, where `detected_app` is what could be told of the
/// application.
pub fn choose_audio_target(options: &CaptureOptions, detected_app: &Option<String>) -> (target:
    AudioTarget)
    ensures
        target@ == audio_target(*options, detected_app is Some),
{
    if options.source_type == WINDOW && detected_app.is_some() {
        return AudioTarget::AppFromVideoNode(options.node_id);
    }
    let pids = pids_to_exclude(options);
    if pids.len() == 0 {
        AudioTarget::System
    } else {
        AudioTarget::SystemExcludePids(pids)
    }
}

/// The audio that a name selects; `None` turns audio off.
pub fn target_by_name(name: String) -> (target: Option<AudioTarget>)
    ensures
        target is Some <==> named_target(name@) is Some,
        target matches Some(target) ==> named_target(name@) == Some(target@),
{
    if text::same(&name, TARGET_NONE) {
        None
    } else if text::same(&name, TARGET_SYSTEM) {
        Some(AudioTarget::System)
    } else {
        Some(AudioTarget::AppByName(name))
    }
}

/// The entry for a stream.
pub open spec fn portal_stream(info: StreamInfo) -> PortalStream {
    PortalStream {
        node_id: info.node_id,
        source_type: info.source_type,
        width: info.width,
        height: info.height,
    }
}

/// The entries for the streams that were picked.
fn picker_result(streams: &Vec<StreamInfo>) -> (result: PickerResult)
    ensures
        result.streams@ == streams@.map_values(|info: StreamInfo| portal_stream(info)),
{
    let mut entries: Vec<PortalStream> = Vec::new();
    for i in 0..streams.len()
        invariant
            entries@ == streams@.map_values(|info: StreamInfo| portal_stream(info)).take(i as int),
    {
        let info = streams[i];
        entries.push(
            PortalStream {
                node_id: info.node_id,
                source_type: info.source_type,
                width: info.width,
                height: info.height,
            },
        );
    }
    PickerResult { streams: entries }
}

/// Whether `info` describes a capture with a region of `size` bytes.
pub open spec fn describes(info: CaptureInfo, size: usize, detected_app: Option<String>) -> bool {
    &&& info.shm_path@ == shm::SHM_ROOT@ + shm::SHM_NAME@
    &&& info.shm_size == size as u32
    &&& info.header_size == shm::HEADER_SIZE
    &&& info.width == 0
    &&& info.height == 0
    &&& info.detected_app == detected_app
}

/// The texts of a list of entries.
pub open spec fn info_views(infos: Seq<AudioAppInfo>) -> Seq<resolve::AppView> {
    infos.map_values(
        |info: AudioAppInfo| resolve::AppView { name: info.name@, binary: info.binary@ },
    )
}

/// The applications that play audio, ordered by name, from what the registry
/// announced, if it could be asked.
pub fn list_audio_apps<E>(announced: Result<Vec<Global>, E>) -> (result: Result<
    Vec<AudioAppInfo>,
    CaptureError<E>,
>)
    ensures
        match announced {
            Ok(globals) => result is Ok && resolve::is_listing(
                globals@,
                info_views(result->Ok_0@),
            ),
            Err(error) => result == Err::<Vec<AudioAppInfo>, CaptureError<E>>(
                CaptureError::ListApps(error),
            ),
        },
{
    let globals = match announced {
        Ok(globals) => globals,
        Err(error) => {
            return Err(CaptureError::ListApps(error));
        },
    };
    let apps = resolve::list_audio_apps(&globals);
    let mut infos: Vec<AudioAppInfo> = Vec::new();
    for i in 0..apps.len()
        invariant
            infos@.len() == i,
            forall|j: int|
                0 <= j < i ==> (#[trigger] infos@[j]).name@ == apps@[j].name@ && infos@[j].binary@
                    == apps@[j].binary@,
    {
        infos.push(AudioAppInfo { name: apps[i].name.clone(), binary: apps[i].binary.clone() });
    }
    assert(info_views(infos@) =~= resolve::app_views(apps@));
    Ok(infos)
}

/// The bytes of drained audio.
pub fn audio_chunk(buffer: &AudioBuffer) -> (chunk: AudioChunk)
    ensures
        chunk.channels == buffer.channels,
        chunk.sample_rate == buffer.sample_rate,
        chunk.data@ == audio::sample_bytes(buffer.data@),
{
    AudioChunk {
        channels: buffer.channels,
        sample_rate: buffer.sample_rate,
        data: audio::encode(&buffer.data),
    }
}

impl CaptureError<String> {
    /// What to tell the caller.
    pub fn message(&self) -> (message: String)
        ensures
            message@ == match *self {
                CaptureError::Portal(error) => "portal: "@ + error@,
                CaptureError::NoPicker => "start_capture called without a prior showPicker"@,
                CaptureError::FdConsumed => "PipeWire fd already consumed; call showPicker again"@,
                CaptureError::Video(error) => "capture: "@ + error@,
                CaptureError::Audio(error) => "audio: "@ + error@,
                CaptureError::ListApps(error) => "list apps: "@ + error@,
            },
    {
        match self {
            CaptureError::Portal(error) => "portal: ".to_owned().concat(error),
            CaptureError::NoPicker => "start_capture called without a prior showPicker".to_owned(),
            CaptureError::FdConsumed => {
                "PipeWire fd already consumed; call showPicker again".to_owned()
            },
            CaptureError::Video(error) => "capture: ".to_owned().concat(error),
            CaptureError::Audio(error) => "audio: ".to_owned().concat(error),
            CaptureError::ListApps(error) => "list apps: ".to_owned().concat(error),
        }
    }
}

/// The session: what was picked, with a descriptor of type `F` and the
/// portal's side of type `S`, and the captures that run, of types `V` and `A`.
/// Dropping a capture stops it.
pub struct Session<F, S, V, A> {
    pub portal: Option<PortalHandle<F, S>>,
    pub video: Option<V>,
    pub audio: Option<A>,
}

/// Whether `detected` is what could be told of the application: what
/// `detect_app` says for a window; for anything else nothing is asked.
pub open spec fn told<D: FnOnce(u32) -> Option<String>>(
    options: CaptureOptions,
    detect_app: D,
    detected: Option<String>,
) -> bool {
    if options.source_type == WINDOW {
        call_ensures(detect_app, (options.node_id,), detected)
    } else {
        detected is None
    }
}

/// Whether the audio part of a start, after the video part gave a region of
/// `size` bytes, may lead from the audio capture `before` to `after` and the
/// result `result`.
pub open spec fn audio_started<
    A,
    E,
    D: FnOnce(u32) -> Option<String>,
    O: FnOnce(AudioTarget, Released<Option<A>>) -> Result<A, E>,
>(
    options: CaptureOptions,
    size: usize,
    detect_app: D,
    open_audio: O,
    before: Option<A>,
    after: Option<A>,
    result: Result<CaptureInfo, CaptureError<E>>,
) -> bool {
    if options.audio {
        exists|
            detected: Option<String>,
            target: AudioTarget,
            released: Released<Option<A>>,
            opened: Result<A, E>,
        |
            {
                &&& #[trigger] told(options, detect_app, detected)
                &&& target@ == audio_target(options, detected is Some)
                &&& released@ == before
                &&& #[trigger] call_ensures(open_audio, (target, released), opened)
                &&& match opened {
                    Ok(capture) => after == Some(capture) && result is Ok && describes(
                        result->Ok_0,
                        size,
                        detected,
                    ),
                    Err(error) => after is None && result == Err::<CaptureInfo, CaptureError<E>>(
                        CaptureError::Audio(error),
                    ),
                }
            }
    } else {
        after == before && result is Ok && describes(result->Ok_0, size, None)
    }
}

/// Whether `open_video` may open what was picked, once `before` has been given
/// up.
pub open spec fn video_opens<
    F,
    V,
    E,
    W: FnOnce(u32, F, u32, Released<Option<V>>) -> Result<(V, usize), E>,
>(options: CaptureOptions, fd: F, before: Option<V>, open_video: W) -> bool {
    exists|released: Released<Option<V>>, video: V, size: usize|
        released@ == before && #[trigger] call_ensures(
            open_video,
            (options.node_id, fd, options.fps, released),
            Ok::<(V, usize), E>((video, size)),
        )
}

/// Whether a start may lead from `before` to `after` and the result `result`.
pub open spec fn started<
    F,
    S,
    V,
    A,
    E,
    W: FnOnce(u32, F, u32, Released<Option<V>>) -> Result<(V, usize), E>,
    D: FnOnce(u32) -> Option<String>,
    O: FnOnce(AudioTarget, Released<Option<A>>) -> Result<A, E>,
>(
    options: CaptureOptions,
    open_video: W,
    detect_app: D,
    open_audio: O,
    before: Session<F, S, V, A>,
    after: Session<F, S, V, A>,
    result: Result<CaptureInfo, CaptureError<E>>,
) -> bool {
    match before.portal {
        None => after == before && result == Err::<CaptureInfo, CaptureError<E>>(
            CaptureError::NoPicker,
        ),
        Some(handle) => match handle.pipewire_fd {
            None => after == before && result == Err::<CaptureInfo, CaptureError<E>>(
                CaptureError::FdConsumed,
            ),
            Some(fd) => {
                &&& after.portal == Some(
                    PortalHandle::<F, S> {
                        streams: handle.streams,
                        pipewire_fd: None,
                        session: handle.session,
                    },
                )
                &&& exists|released: Released<Option<V>>, opened: Result<(V, usize), E>| #[trigger]
                    call_ensures(open_video, (options.node_id, fd, options.fps, released), opened)
                        && released@ == before.video && match opened {
                        Ok((video, size)) => after.video == Some(video) && audio_started(
                            options,
                            size,
                            detect_app,
                            open_audio,
                            before.audio,
                            after.audio,
                            result,
                        ),
                        Err(error) => {
                            &&& after.video is None
                            &&& after.audio == before.audio
                            &&& result == Err::<CaptureInfo, CaptureError<E>>(
                                CaptureError::Video(error),
                            )
                        },
                    }
            },
        },
    }
}

impl<F, S, V, A> Session<F, S, V, A> {
    /// The descriptor of what was picked, if it has not been captured yet.
    pub open spec fn picked_fd(self) -> Option<F> {
        match self.portal {
            Some(handle) => handle.pipewire_fd,
            None => None,
        }
    }

    /// A session in which nothing was picked.
    pub fn new() -> (session: Session<F, S, V, A>)
        ensures
            session.portal is None,
            session.video is None,
            session.audio is None,
    {
        Session { portal: None, video: None, audio: None }
    }

    /// Before the user is asked to pick: takes what an earlier pick left, to
    /// be closed.
    pub fn begin_picker(&mut self) -> (stale: Option<PortalHandle<F, S>>)
        ensures
            stale == old(self).portal,
            final(self).portal is None,
            final(self).video == old(self).video,
            final(self).audio == old(self).audio,
    {
        self.portal.take()
    }

    /// The user picked or cancelled, or the portal failed. Returns what was
    /// picked.
    pub fn finish_picker<E>(&mut self, picked: Result<Option<PortalHandle<F, S>>, E>) -> (result:
        Result<Option<PickerResult>, CaptureError<E>>)
        ensures
            match picked {
                Ok(Some(handle)) => {
                    &&& result is Ok
                    &&& result->Ok_0 is Some
                    &&& result->Ok_0->0.streams@ == handle.streams@.map_values(
                        |info: StreamInfo| portal_stream(info),
                    )
                    &&& final(self).portal == Some(handle)
                },
                Ok(None) => {
                    &&& result == Ok::<Option<PickerResult>, CaptureError<E>>(None)
                    &&& final(self).portal == old(self).portal
                },
                Err(error) => {
                    &&& result == Err::<Option<PickerResult>, CaptureError<E>>(
                        CaptureError::Portal(error),
                    )
                    &&& final(self).portal == old(self).portal
                },
            },
            final(self).video == old(self).video,
            final(self).audio == old(self).audio,
    {
        match picked {
            Ok(Some(handle)) => {
                let result = picker_result(&handle.streams);
                self.portal = Some(handle);
                Ok(Some(result))
            },
            Ok(None) => Ok(None),
            Err(error) => Err(CaptureError::Portal(error)),
        }
    }

    /// Starts capturing what was picked, in place of what was captured before:
    /// the video with `open_video`, which also tells the size of the shared
    /// region, and then, if audio is asked for, the audio with `open_audio`.
    /// For a window the application is asked of `detect_app`. What was captured
    /// before is dropped before anything is opened in its place.
    pub fn start_capture<
        E,
        W: FnOnce(u32, F, u32, Released<Option<V>>) -> Result<(V, usize), E>,
        D: FnOnce(u32) -> Option<String>,
        O: FnOnce(AudioTarget, Released<Option<A>>) -> Result<A, E>,
    >(&mut self, options: &CaptureOptions, open_video: W, detect_app: D, open_audio: O) -> (result:
        Result<CaptureInfo, CaptureError<E>>)
        requires
            old(self).picked_fd() matches Some(fd) ==> forall|released: Released<Option<V>>|
                released@ == old(self).video ==> #[trigger] call_requires(
                    open_video,
                    (options.node_id, fd, options.fps, released),
                ),
            old(self).picked_fd() matches Some(fd) ==> options.audio && options.source_type
                == WINDOW && video_opens(*options, fd, old(self).video, open_video)
                ==> call_requires(detect_app, (options.node_id,)),
            old(self).picked_fd() matches Some(fd) ==> options.audio && video_opens(
                *options,
                fd,
                old(self).video,
                open_video,
            ) ==> forall|
                detected: Option<String>,
                target: AudioTarget,
                released: Released<Option<A>>,
            |
                #[trigger] told(*options, detect_app, detected) && target@ == audio_target(
                    *options,
                    detected is Some,
                ) && released@ == old(self).audio ==> #[trigger] call_requires(
                    open_audio,
                    (target, released),
                ),
        ensures
            started(
                *options,
                open_video,
                detect_app,
                open_audio,
                *old(self),
                *final(self),
                result,
            ),
    {
        let fd = match self.portal.as_mut() {
            Some(handle) => match handle.take_fd() {
                Some(fd) => fd,
                None => {
                    return Err(CaptureError::FdConsumed);
                },
            },
            None => {
                return Err(CaptureError::NoPicker);
            },
        };
        let released = release(self.video.take());
        let size: usize = match open_video(options.node_id, fd, options.fps, released) {
            Ok((video, size)) => {
                self.video = Some(video);
                size
            },
            Err(error) => {
                return Err(CaptureError::Video(error));
            },
        };
        let mut detected_app: Option<String> = None;
        if options.audio {
            let released = release(self.audio.take());
            if options.source_type == WINDOW {
                detected_app = detect_app(options.node_id);
            }
            assert(told(*options, detect_app, detected_app));
            let target = choose_audio_target(options, &detected_app);
            match open_audio(target, released) {
                Ok(capture) => {
                    self.audio = Some(capture);
                },
                Err(error) => {
                    return Err(CaptureError::Audio(error));
                },
            }
        }
        Ok(
            CaptureInfo {
                shm_path: shm::shm_public_path(),
                shm_size: size as u32,
                header_size: shm::HEADER_SIZE as u32,
                width: 0,
                height: 0,
                detected_app,
            },
        )
    }

    /// Switches to the audio that `target` names, with `open_audio`; "none"
    /// turns audio off. The audio capture that ran is dropped first, in any
    /// case.
    pub fn set_audio_target<E, O: FnOnce(AudioTarget, Released<Option<A>>) -> Result<A, E>>(
        &mut self,
        target: String,
        open_audio: O,
    ) -> (result: Result<(), CaptureError<E>>)
        requires
            forall|chosen: AudioTarget, released: Released<Option<A>>|
                named_target(target@) == Some(chosen@) && released@ == old(self).audio
                    ==> #[trigger] call_requires(open_audio, (chosen, released)),
        ensures
            final(self).portal == old(self).portal,
            final(self).video == old(self).video,
            match named_target(target@) {
                None => final(self).audio is None && result == Ok::<(), CaptureError<E>>(()),
                Some(view) => exists|
                    chosen: AudioTarget,
                    released: Released<Option<A>>,
                    opened: Result<A, E>,
                |
                    chosen@ == view && released@ == old(self).audio && #[trigger] call_ensures(
                        open_audio,
                        (chosen, released),
                        opened,
                    ) && match opened {
                        Ok(capture) => final(self).audio == Some(capture) && result == Ok::<
                            (),
                            CaptureError<E>,
                        >(()),
                        Err(error) => final(self).audio is None && result == Err::<
                            (),
                            CaptureError<E>,
                        >(CaptureError::Audio(error)),
                    },
            },
    {
        let released = release(self.audio.take());
        match target_by_name(target) {
            Some(chosen) => match open_audio(chosen, released) {
                Ok(capture) => {
                    self.audio = Some(capture);
                    Ok(())
                },
                Err(error) => Err(CaptureError::Audio(error)),
            },
            None => Ok(()),
        }
    }

    /// The audio that has come in since the last call, taken from the running
    /// capture with `drain`.
    pub fn read_audio<R: FnOnce(&A) -> Option<AudioBuffer>>(&self, drain: R) -> (chunk: Option<
        AudioChunk,
    >)
        requires
            self.audio matches Some(capture) ==> call_requires(drain, (&capture,)),
        ensures
            match self.audio {
                None => chunk is None,
                Some(capture) => exists|drained: Option<AudioBuffer>| #[trigger]
                    call_ensures(drain, (&capture,), drained) && match drained {
                        None => chunk is None,
                        Some(buffer) => {
                            &&& chunk is Some
                            &&& chunk->0.channels == buffer.channels
                            &&& chunk->0.sample_rate == buffer.sample_rate
                            &&& chunk->0.data@ == audio::sample_bytes(buffer.data@)
                        },
                    },
            },
    {
        match &self.audio {
            Some(capture) => match drain(capture) {
                Some(buffer) => Some(audio_chunk(&buffer)),
                None => None,
            },
            None => None,
        }
    }

    /// Whether video is being captured.
    pub fn is_capturing(&self) -> (r: bool)
        ensures
            r == (self.video is Some),
    {
        self.video.is_some()
    }

    /// Stops the captures, and takes what was picked, to be closed.
    pub fn stop_capture(&mut self) -> (handle: Option<PortalHandle<F, S>>)
        ensures
            handle == old(self).portal,
            final(self).portal is None,
            final(self).video is None,
            final(self).audio is None,
    {
        self.video = None;
        self.audio = None;
        self.portal.take()
    }
}

/// What was picked can be captured once: after an attempt, and whatever became
/// of the captures since, another one needs a new pick.
pub proof fn law_pick_is_captured_once<
    F,
    S,
    V,
    A,
    E,
    W: FnOnce(u32, F, u32, Released<Option<V>>) -> Result<(V, usize), E>,
    D: FnOnce(u32) -> Option<String>,
    O: FnOnce(AudioTarget, Released<Option<A>>) -> Result<A, E>,
    W2: FnOnce(u32, F, u32, Released<Option<V>>) -> Result<(V, usize), E>,
    D2: FnOnce(u32) -> Option<String>,
    O2: FnOnce(AudioTarget, Released<Option<A>>) -> Result<A, E>,
>(
    options: CaptureOptions,
    calls: (W, D, O),
    later_options: CaptureOptions,
    later_calls: (W2, D2, O2),
    before: Session<F, S, V, A>,
    between: Session<F, S, V, A>,
    later: Session<F, S, V, A>,
    after: Session<F, S, V, A>,
    first: Result<CaptureInfo, CaptureError<E>>,
    second: Result<CaptureInfo, CaptureError<E>>,
)
    requires
        before.portal is Some,
        started(options, calls.0, calls.1, calls.2, before, between, first),
        later.portal == between.portal,
        started(later_options, later_calls.0, later_calls.1, later_calls.2, later, after, second),
    ensures
        second == Err::<CaptureInfo, CaptureError<E>>(CaptureError::FdConsumed),
        after == later,
{
}

/// Without a pick nothing is captured.
pub proof fn law_capture_needs_pick<
    F,
    S,
    V,
    A,
    E,
    W: FnOnce(u32, F, u32, Released<Option<V>>) -> Result<(V, usize), E>,
    D: FnOnce(u32) -> Option<String>,
    O: FnOnce(AudioTarget, Released<Option<A>>) -> Result<A, E>,
>(
    options: CaptureOptions,
    open_video: W,
    detect_app: D,
    open_audio: O,
    before: Session<F, S, V, A>,
    after: Session<F, S, V, A>,
    result: Result<CaptureInfo, CaptureError<E>>,
)
    requires
        before.portal is None,
        started(options, open_video, detect_app, open_audio, before, after, result),
    ensures
        result == Err::<CaptureInfo, CaptureError<E>>(CaptureError::NoPicker),
        after == before,
{
}

/// A start that succeeds captures video, and audio if that was asked for; the
/// video runs also where only the audio fails.
pub proof fn law_started_capture_runs<
    F,
    S,
    V,
    A,
    E,
    W: FnOnce(u32, F, u32, Released<Option<V>>) -> Result<(V, usize), E>,
    D: FnOnce(u32) -> Option<String>,
    O: FnOnce(AudioTarget, Released<Option<A>>) -> Result<A, E>,
>(
    options: CaptureOptions,
    open_video: W,
    detect_app: D,
    open_audio: O,
    before: Session<F, S, V, A>,
    after: Session<F, S, V, A>,
    result: Result<CaptureInfo, CaptureError<E>>,
)
    requires
        started(options, open_video, detect_app, open_audio, before, after, result),
    ensures
        result is Ok ==> after.video is Some,
        result is Ok && options.audio ==> after.audio is Some,
        result is Err && result->Err_0 is Audio ==> after.video is Some && after.audio is None,
{
}

/// Only the capture of a window, and only of one whose application could be
/// told, is limited to one application's audio.
pub proof fn law_only_known_windows_are_isolated(options: CaptureOptions, detected: bool)
    ensures
        audio_target(options, detected) is AppFromVideoNode <==> options.source_type == WINDOW
            && detected,
        !(audio_target(options, detected) is AppByName),
{
}

/// Processes are left out only where some are given, and zero is none.
pub proof fn law_excluded_processes_are_real(options: CaptureOptions, detected: bool)
    ensures
        audio_target(options, detected) matches TargetView::SystemExcludePids(pids)
            ==> pids.len() > 0 && !pids.contains(0) && forall|pid: u32| #[trigger]
            pids.contains(pid) <==> options.exclude_pids->0@.contains(pid) && pid != 0,
        audio_target(options, detected) is System ==> options.exclude_pids is None || forall|
            pid: u32,
        | #[trigger] options.exclude_pids->0@.contains(pid) ==> pid == 0,
{
    if let Some(pids) = options.exclude_pids {
        let keep = |pid: u32| pid != 0;
        let kept = pids@.filter(keep);
        assert forall|pid: u32| #[trigger] kept.contains(pid) <==> pids@.contains(pid) && pid
            != 0 by {
            if kept.contains(pid) {
                let i = choose|i: int| 0 <= i < kept.len() && kept[i] == pid;
                pids@.lemma_filter_pred(keep, i);
                pids@.lemma_filter_contains_rev(keep, pid);
            }
            if pids@.contains(pid) && pid != 0 {
                let i = choose|i: int| 0 <= i < pids@.len() && pids@[i] == pid;
                pids@.lemma_filter_contains(keep, i);
            }
        }
        if kept.len() == 0 {
            assert forall|pid: u32| #[trigger] pids@.contains(pid) implies pid == 0 by {
                if pid != 0 {
                    assert(kept.contains(pid));
                }
            }
        }
    }
}

/// The names "none" and "system" are no applications; every other name is one.
pub proof fn law_other_names_are_applications(name: Seq<char>)
    ensures
        named_target(name) is None <==> name == TARGET_NONE@,
        name != TARGET_NONE@ && name != TARGET_SYSTEM@ ==> named_target(name) == Some(
            TargetView::AppByName(name),
        ),
        named_target(TARGET_SYSTEM@) == Some(TargetView::System),
{
    reveal_strlit("none");
    reveal_strlit("system");
    assert(TARGET_NONE@.len() != TARGET_SYSTEM@.len());
}

/// The name under which an application is listed, given as a target, captures
/// the stream that it was listed for, unless it is one of the two names that
/// are no applications.
pub proof fn law_listed_app_can_be_selected(global: Global)
    requires
        resolve::shown_app(global) is Some,
        resolve::shown_app(global)->0.name != TARGET_NONE@,
        resolve::shown_app(global)->0.name != TARGET_SYSTEM@,
    ensures
        ({
            let name = resolve::shown_app(global)->0.name;
            &&& named_target(name) == Some(TargetView::AppByName(name))
            &&& audio::app::wanted(Some(resolve::MatcherView::AppName(name)), global)
        }),
{
    resolve::law_listed_name_selects_its_stream(global);
}

/// What was picked is reported stream by stream, as the portal gave it, and is
/// kept for a capture. Where nothing was picked, or the portal failed, that is
/// reported, and nothing changes.
pub proof fn law_pick_is_reported_as_it_is<F, S, V, A, E>(
    session: &mut Session<F, S, V, A>,
    picked: Result<Option<PortalHandle<F, S>>, E>,
    result: Result<Option<PickerResult>, CaptureError<E>>,
)
    requires
        call_ensures(Session::<F, S, V, A>::finish_picker::<E>, (session, picked), result),
    ensures
        picked matches Ok(Some(handle)) ==> {
            &&& result is Ok && result->Ok_0 is Some
            &&& final(session).portal == Some(handle)
            &&& result->Ok_0->0.streams@.len() == handle.streams@.len()
            &&& forall|i: int|
                0 <= i < handle.streams@.len() ==> {
                    let (entry, info) = (
                        #[trigger] result->Ok_0->0.streams@[i],
                        handle.streams@[i],
                    );
                    &&& entry.node_id == info.node_id
                    &&& entry.source_type == info.source_type
                    &&& entry.width == info.width
                    &&& entry.height == info.height
                }
        },
        picked matches Ok(None) ==> result is Ok && result->Ok_0 is None && final(session).portal
            == old(session).portal,
        picked matches Err(error) ==> result == Err::<Option<PickerResult>, CaptureError<E>>(
            CaptureError::Portal(error),
        ) && final(session).portal == old(session).portal,
        final(session).video == old(session).video,
        final(session).audio == old(session).audio,
{
}

/// The audio of the window's application is captured if and only if a window
/// is captured whose application could be told. Else it is all desktop audio:
/// without the given processes other than zero, in their order, if there are
/// any, and without exception if there are none.
pub proof fn law_audio_follows_the_source(
    options: &CaptureOptions,
    detected_app: &Option<String>,
    target: AudioTarget,
)
    requires
        call_ensures(choose_audio_target, (options, detected_app), target),
    ensures
        target is AppFromVideoNode <==> options.source_type == 2 && detected_app is Some,
        target matches AudioTarget::AppFromVideoNode(id) ==> id == options.node_id,
        !(target is AppByName),
        target matches AudioTarget::SystemExcludePids(pids) ==> options.exclude_pids is Some
            && pids@ == options.exclude_pids->0@.filter(|pid: u32| pid != 0) && pids@.len() > 0
            && forall|pid: u32| #[trigger]
            pids@.contains(pid) <==> options.exclude_pids->0@.contains(pid) && pid != 0,
        target is System ==> options.exclude_pids is None || forall|pid: u32| #[trigger]
            options.exclude_pids->0@.contains(pid) ==> pid == 0,
{
    law_excluded_processes_are_real(*options, detected_app is Some);
    if let AudioTarget::SystemExcludePids(pids) = target {
        assert(target@ == TargetView::SystemExcludePids(pids@));
    }
}

/// "none" turns audio off, "system" is all desktop audio, and any other name is
/// an application's.
pub proof fn law_names_select_their_audio(name: String, target: Option<AudioTarget>)
    requires
        call_ensures(target_by_name, (name,), target),
    ensures
        target is None <==> name@ == "none"@,
        target matches Some(AudioTarget::System) <==> name@ == "system"@,
        name@ != "none"@ && name@ != "system"@ ==> target is Some && target->0 is AppByName
            && target->0->AppByName_0@ == name@,
{
    reveal_strlit("none");
    reveal_strlit("system");
    assert("none"@.len() != "system"@.len());
    if let Some(target) = target {
        assert(target@ is System <==> target is System);
        assert(target@ is AppByName <==> target is AppByName);
    }
}

/// The applications that are listed for the caller are those that the registry
/// shows, entry by entry; where it could not be asked, that is told.
pub proof fn law_listing_is_handed_on<E>(
    globals: Vec<Global>,
    apps: Vec<resolve::AudioApp>,
    result: Result<Vec<AudioAppInfo>, CaptureError<E>>,
    error: E,
    failed: Result<Vec<AudioAppInfo>, CaptureError<E>>,
)
    requires
        resolve::is_listing(globals@, resolve::app_views(apps@)),
        call_ensures(list_audio_apps::<E>, (Ok::<Vec<Global>, E>(globals),), result),
        call_ensures(list_audio_apps::<E>, (Err::<Vec<Global>, E>(error),), failed),
    ensures
        result is Ok,
        result->Ok_0@.len() == apps@.len(),
        forall|i: int|
            0 <= i < apps@.len() ==> (#[trigger] result->Ok_0@[i]).name@ == apps@[i].name@
                && result->Ok_0@[i].binary@ == apps@[i].binary@,
        failed == Err::<Vec<AudioAppInfo>, CaptureError<E>>(CaptureError::ListApps(error)),
{
    let (a, b) = (info_views(result->Ok_0@), resolve::app_views(apps@));
    resolve::law_listing_is_determined(globals@, a, b);
    assert(a.len() == result->Ok_0@.len() && b.len() == apps@.len());
    assert forall|i: int| 0 <= i < apps@.len() implies (#[trigger] result->Ok_0@[i]).name@
        == apps@[i].name@ && result->Ok_0@[i].binary@ == apps@[i].binary@ by {
        assert(a[i] == b[i]);
        assert(a[i].name == result->Ok_0@[i].name@ && a[i].binary == result->Ok_0@[i].binary@);
    }
}

/// Drained audio keeps its label, and each sample is the number that its four
/// bytes make up, the lowest first.
pub proof fn law_chunk_holds_the_samples(buffer: &AudioBuffer, chunk: AudioChunk)
    requires
        call_ensures(audio_chunk, (buffer,), chunk),
    ensures
        chunk.channels == buffer.channels,
        chunk.sample_rate == buffer.sample_rate,
        chunk.data@.len() == 4 * buffer.data@.len(),
        forall|i: int|
            0 <= i < buffer.data@.len() ==> #[trigger] buffer.data@[i] == chunk.data@[4 * i]
                + chunk.data@[4 * i + 1] * 256 + chunk.data@[4 * i + 2] * 65536 + chunk.data@[4 * i
                + 3] * 16777216,
{
    lemma_bytes_of(buffer.data@);
}

proof fn lemma_bytes_of(samples: Seq<u32>)
    ensures
        forall|i: int|
            0 <= i < samples.len() ==> #[trigger] samples[i] == audio::sample_bytes(samples)[4 * i]
                + audio::sample_bytes(samples)[4 * i + 1] * 256 + audio::sample_bytes(samples)[4 * i
                + 2] * 65536 + audio::sample_bytes(samples)[4 * i + 3] * 16777216,
{
    assert forall|i: int| 0 <= i < samples.len() implies #[trigger] samples[i]
        == audio::sample_bytes(samples)[4 * i] + audio::sample_bytes(samples)[4 * i + 1] * 256
        + audio::sample_bytes(samples)[4 * i + 2] * 65536 + audio::sample_bytes(samples)[4 * i + 3]
        * 16777216 by {
        audio::lemma_sample_of_bytes(samples, i);
    }
}

/// Audio is read from the capture that runs, if one does, and is what that
/// gives, sample by sample.
pub proof fn law_read_audio_is_what_was_drained<
    F,
    S,
    V,
    A,
    R: FnOnce(&A) -> Option<AudioBuffer>,
>(session: &Session<F, S, V, A>, drain: R, chunk: Option<AudioChunk>)
    requires
        call_ensures(Session::<F, S, V, A>::read_audio::<R>, (session, drain), chunk),
    ensures
        session.audio is None ==> chunk is None,
        session.audio matches Some(capture) ==> exists|drained: Option<AudioBuffer>| #[trigger]
            call_ensures(drain, (&capture,), drained) && (drained is Some <==> chunk is Some) && (
            drained matches Some(buffer) ==> {
                let data = chunk->0.data@;
                &&& chunk->0.channels == buffer.channels
                &&& chunk->0.sample_rate == buffer.sample_rate
                &&& data.len() == 4 * buffer.data@.len()
                &&& forall|i: int|
                    0 <= i < buffer.data@.len() ==> #[trigger] buffer.data@[i] == data[4 * i]
                        + data[4 * i + 1] * 256 + data[4 * i + 2] * 65536 + data[4 * i + 3]
                        * 16777216
            }),
{
    if let Some(capture) = session.audio {
        let drained = choose|drained: Option<AudioBuffer>| #[trigger]
            call_ensures(drain, (&capture,), drained) && match drained {
                None => chunk is None,
                Some(buffer) => {
                    &&& chunk is Some
                    &&& chunk->0.channels == buffer.channels
                    &&& chunk->0.sample_rate == buffer.sample_rate
                    &&& chunk->0.data@ == audio::sample_bytes(buffer.data@)
                },
            };
        if let Some(buffer) = drained {
            lemma_bytes_of(buffer.data@);
        }
    }
}

/// What is told of an error: what was attempted, and why it failed.
pub proof fn law_messages_tell_what_failed(error: &CaptureError<String>, message: String)
    requires
        call_ensures(CaptureError::<String>::message, (error,), message),
    ensures
        error is NoPicker ==> message@ == "start_capture called without a prior showPicker"@,
        error is FdConsumed ==> message@ == "PipeWire fd already consumed; call showPicker again"@,
        error matches CaptureError::Portal(reason) ==> message@ == "portal: "@ + reason@,
        error matches CaptureError::Video(reason) ==> message@ == "capture: "@ + reason@,
        error matches CaptureError::Audio(reason) ==> message@ == "audio: "@ + reason@,
        error matches CaptureError::ListApps(reason) ==> message@ == "list apps: "@ + reason@,
{
}

/// A session starts with nothing; a new pick begins by giving up the one
/// before; a stop ends all and gives up the pick; and video is being captured
/// if and only if there is a video capture.
pub proof fn law_session_begins_and_ends_empty<F, S, V, A>(
    fresh: Session<F, S, V, A>,
    picking: &mut Session<F, S, V, A>,
    stale: Option<PortalHandle<F, S>>,
    stopped: &mut Session<F, S, V, A>,
    handle: Option<PortalHandle<F, S>>,
    session: &Session<F, S, V, A>,
    capturing: bool,
)
    requires
        call_ensures(Session::<F, S, V, A>::new, (), fresh),
        call_ensures(Session::<F, S, V, A>::begin_picker, (picking,), stale),
        call_ensures(Session::<F, S, V, A>::stop_capture, (stopped,), handle),
        call_ensures(Session::<F, S, V, A>::is_capturing, (session,), capturing),
    ensures
        fresh.portal is None && fresh.video is None && fresh.audio is None,
        stale == old(picking).portal,
        final(picking).portal is None,
        final(picking).video == old(picking).video,
        final(picking).audio == old(picking).audio,
        handle == old(stopped).portal,
        final(stopped).portal is None && final(stopped).video is None && final(stopped).audio is None,
        capturing <==> session.video is Some,
{
}

/// Switching audio touches neither the pick nor the video. "none" leaves no
/// audio; "system" opens all desktop audio; any other name opens that
/// application's. What was opened runs; what could not be leaves no audio, and
/// is told.
pub proof fn law_audio_is_switched_by_name<
    F,
    S,
    V,
    A,
    E,
    O: FnOnce(AudioTarget, Released<Option<A>>) -> Result<A, E>,
>(
    session: &mut Session<F, S, V, A>,
    target: String,
    open_audio: O,
    result: Result<(), CaptureError<E>>,
)
    requires
        call_ensures(
            Session::<F, S, V, A>::set_audio_target::<E, O>,
            (session, target, open_audio),
            result,
        ),
    ensures
        final(session).portal == old(session).portal,
        final(session).video == old(session).video,
        target@ == "none"@ ==> final(session).audio is None && result is Ok,
        target@ != "none"@ ==> exists|
            chosen: AudioTarget,
            released: Released<Option<A>>,
            opened: Result<A, E>,
        | #[trigger]
            call_ensures(open_audio, (chosen, released), opened) && released@ == old(session).audio && (chosen is System <==> target@ == "system"@) && (target@ != "system"@
                ==> chosen is AppByName && chosen->AppByName_0@ == target@) && match opened {
                Ok(capture) => final(session).audio == Some(capture) && result is Ok,
                Err(error) => final(session).audio is None && result == Err::<
                    (),
                    CaptureError<E>,
                >(CaptureError::Audio(error)),
            },
{
    reveal_strlit("none");
    reveal_strlit("system");
    assert("none"@.len() != "system"@.len());
    if target@ != "none"@ {
        let view = named_target(target@)->0;
        let (chosen, released, opened) = choose|
            chosen: AudioTarget,
            released: Released<Option<A>>,
            opened: Result<A, E>,
        |
            chosen@ == view && released@ == old(session).audio && #[trigger] call_ensures(
                open_audio,
                (chosen, released),
                opened,
            ) && match opened {
                Ok(capture) => final(session).audio == Some(capture) && result == Ok::<
                    (),
                    CaptureError<E>,
                >(()),
                Err(error) => final(session).audio is None && result == Err::<
                    (),
                    CaptureError<E>,
                >(CaptureError::Audio(error)),
            };
        assert(call_ensures(open_audio, (chosen, released), opened));
        assert(chosen@ is System <==> chosen is System);
        assert(chosen@ is AppByName <==> chosen is AppByName);
    }
}

/// A start is refused if and only if nothing was picked, or what was picked
/// was captured before, and then changes nothing. Else the pick keeps its
/// streams and its session, and gives up its descriptor, with which the video
/// of the given node is opened at the given rate.
pub proof fn law_start_uses_up_the_pick<
    F,
    S,
    V,
    A,
    E,
    W: FnOnce(u32, F, u32, Released<Option<V>>) -> Result<(V, usize), E>,
    D: FnOnce(u32) -> Option<String>,
    O: FnOnce(AudioTarget, Released<Option<A>>) -> Result<A, E>,
>(
    session: &mut Session<F, S, V, A>,
    options: &CaptureOptions,
    open_video: W,
    detect_app: D,
    open_audio: O,
    result: Result<CaptureInfo, CaptureError<E>>,
)
    requires
        call_ensures(
            Session::<F, S, V, A>::start_capture::<E, W, D, O>,
            (session, options, open_video, detect_app, open_audio),
            result,
        ),
    ensures
        old(session).portal is None <==> result matches Err(CaptureError::NoPicker),
        old(session).portal is Some && old(session).portal->0.pipewire_fd is None
            <==> result matches Err(CaptureError::FdConsumed),
        result matches Err(CaptureError::NoPicker) ==> *final(session) == *old(session),
        result matches Err(CaptureError::FdConsumed) ==> *final(session) == *old(session),
        old(session).portal matches Some(handle) ==> handle.pipewire_fd is Some ==> {
            &&& final(session).portal is Some
            &&& final(session).portal->0.streams == handle.streams
            &&& final(session).portal->0.session == handle.session
            &&& final(session).portal->0.pipewire_fd is None
            &&& exists|released: Released<Option<V>>, opened: Result<(V, usize), E>| #[trigger]
                call_ensures(
                    open_video,
                    (options.node_id, handle.pipewire_fd->0, options.fps, released),
                    opened,
                ) && released@ == old(session).video && match opened {
                    Ok((video, size)) => final(session).video == Some(video) && (result is Ok
                        ==> result->Ok_0.shm_size == size as u32) && (result is Err
                        ==> result->Err_0 is Audio),
                    Err(error) => final(session).video is None && final(session).audio == old(session).audio && result == Err::<CaptureInfo, CaptureError<E>>(
                        CaptureError::Video(error),
                    ),
                }
        },
{
}

/// A capture that was started is described with where its region lies and how
/// large its header is, without a size in pixels yet, and with the application
/// whose window it is, where that was asked for and could be told. Where audio
/// is asked for, it is opened: the application's for such a window, and else
/// all desktop audio; what was opened runs. Where it is not, nothing is asked,
/// and the audio goes on as it was.
pub proof fn law_started_capture_is_described<
    F,
    S,
    V,
    A,
    E,
    W: FnOnce(u32, F, u32, Released<Option<V>>) -> Result<(V, usize), E>,
    D: FnOnce(u32) -> Option<String>,
    O: FnOnce(AudioTarget, Released<Option<A>>) -> Result<A, E>,
>(
    session: &mut Session<F, S, V, A>,
    options: &CaptureOptions,
    open_video: W,
    detect_app: D,
    open_audio: O,
    result: Result<CaptureInfo, CaptureError<E>>,
)
    requires
        call_ensures(
            Session::<F, S, V, A>::start_capture::<E, W, D, O>,
            (session, options, open_video, detect_app, open_audio),
            result,
        ),
    ensures
        result matches Ok(info) ==> {
            &&& info.shm_path@ == "/dev/shm/pipecap-frames"@
            &&& info.header_size == 32
            &&& info.width == 0
            &&& info.height == 0
            &&& !options.audio || options.source_type != 2 ==> info.detected_app is None
            &&& options.audio && options.source_type == 2 ==> call_ensures(
                detect_app,
                (options.node_id,),
                info.detected_app,
            )
            &&& !options.audio ==> final(session).audio == old(session).audio
            &&& options.audio ==> exists|
                target: AudioTarget,
                released: Released<Option<A>>,
                opened: Result<A, E>,
            | #[trigger]
                call_ensures(open_audio, (target, released), opened) && released@ == old(session).audio && opened is Ok && final(session).audio == Some(opened->Ok_0) && (
                target is AppFromVideoNode <==> info.detected_app is Some) && (
                target is AppFromVideoNode ==> target->AppFromVideoNode_0 == options.node_id) && (
                target is AppFromVideoNode || target is System || target is SystemExcludePids) && (
                target matches AudioTarget::SystemExcludePids(pids) ==> options.exclude_pids is Some
                    && pids@.len() > 0 && pids@ == options.exclude_pids->0@.filter(
                    |pid: u32| pid != 0,
                )) && (target is System ==> options.exclude_pids is None
                    || options.exclude_pids->0@.filter(|pid: u32| pid != 0).len() == 0)
        },
        result matches Err(CaptureError::Audio(error)) ==> options.audio && final(session).audio is None && final(session).video is Some && exists|
            target: AudioTarget,
            released: Released<Option<A>>,
            opened: Result<A, E>,
        | #[trigger]
            call_ensures(open_audio, (target, released), opened) && opened == Err::<A, E>(error),
{
    reveal_strlit("/dev/shm");
    reveal_strlit("/pipecap-frames");
    reveal_strlit("/dev/shm/pipecap-frames");
    assert(shm::SHM_ROOT@ + shm::SHM_NAME@ =~= "/dev/shm/pipecap-frames"@);
    assert(forall|target: AudioTarget| #[trigger] target@ is System <==> target is System);
}

} // verus!

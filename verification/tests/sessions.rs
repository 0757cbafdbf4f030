use std::cell::{Cell, RefCell};
use std::rc::Rc;

use pipecap::audio::app::AppCapture;
use pipecap::audio::{AudioBuffer, AudioTarget};
use pipecap::portal::{PortalHandle, StreamInfo};
use pipecap::registry::{Dict, Global, ObjectType};
use pipecap::session::{
    audio_chunk, choose_audio_target, list_audio_apps, target_by_name, CaptureError, CaptureInfo,
    CaptureOptions, PickerResult, PortalStream, Session,
};

type TestSession = Session<i32, &'static str, Rc<u32>, Rc<u32>>;

fn handle(fd: i32) -> PortalHandle<i32, &'static str> {
    let stream = StreamInfo { node_id: 42, source_type: 2, width: 640, height: 480 };
    PortalHandle { streams: vec![stream], pipewire_fd: Some(fd), session: Some("portal") }
}

fn pick(session: &mut TestSession, fd: i32) -> PickerResult {
    let picked: Result<_, String> = Ok(Some(handle(fd)));
    session.finish_picker(picked).unwrap().unwrap()
}

fn picked() -> TestSession {
    let mut session = Session::new();
    pick(&mut session, 3);
    session
}

fn options(audio: bool, source_type: u32, exclude_pids: Option<Vec<u32>>) -> CaptureOptions {
    CaptureOptions { node_id: 42, fps: 30, audio, source_type, exclude_pids }
}

fn start(
    session: &mut TestSession,
    options: &CaptureOptions,
    app: Option<&str>,
    capture: &Rc<u32>,
    targets: &RefCell<Vec<String>>,
) -> Result<CaptureInfo, CaptureError<String>> {
    session.start_capture(
        options,
        |_, _, _, _| Ok((capture.clone(), 1000)),
        |_| app.map(|app| app.to_string()),
        |target, _| {
            targets.borrow_mut().push(format!("{target:?}"));
            Ok(capture.clone())
        },
    )
}

#[test]
fn picker_lists_the_streams() {
    let mut session: TestSession = Session::new();
    assert!(session.begin_picker().is_none());
    let result = pick(&mut session, 3);
    let stream = PortalStream { node_id: 42, source_type: 2, width: 640, height: 480 };
    assert_eq!(result.streams, vec![stream]);
    // Another pick hands out what the first one left.
    let stale = session.begin_picker().unwrap();
    assert_eq!((stale.pipewire_fd, stale.session), (Some(3), Some("portal")));
    let cancelled: Result<_, String> = Ok(None);
    assert!(session.finish_picker(cancelled).unwrap().is_none());
    assert!(session.portal.is_none());
}

#[test]
fn failed_portal_is_told() {
    let mut session = picked();
    let error = session.finish_picker(Err("no bus".to_string())).unwrap_err();
    assert!(matches!(&error, CaptureError::Portal(reason) if reason == "no bus"));
    assert_eq!(error.message(), "portal: no bus");
    assert!(session.portal.is_some());
}

#[test]
fn capture_needs_a_pick() {
    let mut session: TestSession = Session::new();
    let targets = RefCell::new(Vec::new());
    let result = start(&mut session, &options(true, 1, None), None, &Rc::new(0), &targets);
    let error = result.unwrap_err();
    assert!(matches!(error, CaptureError::NoPicker));
    assert_eq!(error.message(), "start_capture called without a prior showPicker");
    assert!(!session.is_capturing());
}

#[test]
fn pick_is_captured_once() {
    let mut session = picked();
    let targets = RefCell::new(Vec::new());
    let capture = Rc::new(0);
    assert!(start(&mut session, &options(false, 1, None), None, &capture, &targets).is_ok());
    assert!(session.is_capturing());
    let result = start(&mut session, &options(false, 1, None), None, &capture, &targets);
    let error = result.unwrap_err();
    assert!(matches!(error, CaptureError::FdConsumed));
    assert_eq!(error.message(), "PipeWire fd already consumed; call showPicker again");
    assert!(session.is_capturing());
}

#[test]
fn video_is_opened_with_what_was_picked() {
    let mut session = picked();
    let opened = Cell::new(None);
    let info = session
        .start_capture(
            &options(false, 2, None),
            |node_id, fd, fps, _| {
                opened.set(Some((node_id, fd, fps)));
                Ok::<(Rc<u32>, usize), String>((Rc::new(0), 265_420_832))
            },
            |_| unreachable!(),
            |_, _| unreachable!(),
        )
        .unwrap();
    assert_eq!(opened.get(), Some((42, 3, 30)));
    assert_eq!(info.shm_path, "/dev/shm/pipecap-frames");
    assert_eq!((info.shm_size, info.header_size), (265_420_832, 32));
    assert_eq!((info.width, info.height), (0, 0));
    assert_eq!(info.detected_app, None);
    assert!(session.audio.is_none());
}

#[test]
fn failed_video_leaves_no_video() {
    let mut session = picked();
    session.video = Some(Rc::new(1));
    session.audio = Some(Rc::new(2));
    let error = session
        .start_capture(
            &options(true, 1, None),
            |_, _, _, _| Err("no node".to_string()),
            |_| unreachable!(),
            |_, _| unreachable!(),
        )
        .unwrap_err();
    assert!(matches!(&error, CaptureError::Video(reason) if reason == "no node"));
    assert_eq!(error.message(), "capture: no node");
    assert!(!session.is_capturing());
    assert!(session.audio.is_some());
}

#[test]
fn failed_audio_leaves_the_video_running() {
    let mut session = picked();
    session.audio = Some(Rc::new(2));
    let error = session
        .start_capture(
            &options(true, 1, None),
            |_, _, _, _| Ok((Rc::new(0), 32)),
            |_| unreachable!(),
            |_, _| Err("no sink".to_string()),
        )
        .unwrap_err();
    assert!(matches!(&error, CaptureError::Audio(reason) if reason == "no sink"));
    assert_eq!(error.message(), "audio: no sink");
    assert!(session.is_capturing());
    assert!(session.audio.is_none());
}

#[test]
fn window_of_a_known_app_is_isolated() {
    let targets = RefCell::new(Vec::new());
    let capture = Rc::new(0);
    let excluded = Some(vec![0, 5, 0, 6]);
    let known = options(true, 2, excluded.clone());
    let info = start(&mut picked(), &known, Some("vlc"), &capture, &targets).unwrap();
    assert_eq!(info.detected_app, Some("vlc".to_string()));
    let info = start(&mut picked(), &known, None, &capture, &targets).unwrap();
    assert_eq!(info.detected_app, None);
    let monitor = options(true, 1, excluded);
    let info = start(&mut picked(), &monitor, Some("vlc"), &capture, &targets).unwrap();
    assert_eq!(info.detected_app, None);
    start(&mut picked(), &options(true, 1, Some(vec![0])), None, &capture, &targets).unwrap();
    start(&mut picked(), &options(true, 1, None), None, &capture, &targets).unwrap();
    assert_eq!(
        *targets.borrow(),
        vec![
            "AppFromVideoNode(42)",
            "SystemExcludePids([5, 6])",
            "SystemExcludePids([5, 6])",
            "System",
            "System",
        ]
    );
}

#[test]
fn target_is_chosen_by_source_and_app() {
    let app = Some("vlc".to_string());
    let target = |source_type, app: &Option<String>| {
        choose_audio_target(&options(true, source_type, None), app)
    };
    assert!(matches!(target(2, &app), AudioTarget::AppFromVideoNode(42)));
    assert!(matches!(target(2, &None), AudioTarget::System));
    assert!(matches!(target(1, &app), AudioTarget::System));
    assert!(matches!(target(0, &app), AudioTarget::System));
}

#[test]
fn names_select_targets() {
    assert!(target_by_name("none".to_string()).is_none());
    assert!(matches!(target_by_name("system".to_string()), Some(AudioTarget::System)));
    for name in ["Firefox", "System", "None", ""] {
        assert!(matches!(
            target_by_name(name.to_string()),
            Some(AudioTarget::AppByName(app)) if app == name
        ));
    }
}

#[test]
fn old_captures_are_gone_before_new_ones_are_opened() {
    let mut session = picked();
    let (video, audio) = (Rc::new(1), Rc::new(2));
    session.video = Some(video.clone());
    session.audio = Some(audio.clone());
    session
        .start_capture(
            &options(true, 1, None),
            |_, _, _, _| {
                assert_eq!((Rc::strong_count(&video), Rc::strong_count(&audio)), (1, 2));
                Ok::<(Rc<u32>, usize), String>((Rc::new(3), 32))
            },
            |_| unreachable!(),
            |_, _| {
                assert_eq!(Rc::strong_count(&audio), 1);
                Ok(Rc::new(4))
            },
        )
        .unwrap();
    session.audio = Some(audio.clone());
    let switched: Result<(), CaptureError<String>> =
        session.set_audio_target("system".to_string(), |_, _| {
            assert_eq!(Rc::strong_count(&audio), 1);
            Ok(Rc::new(5))
        });
    assert!(switched.is_ok());
}

#[test]
fn audio_is_switched_at_runtime() {
    let mut session = picked();
    session.video = Some(Rc::new(9));
    let first = Rc::new(1);
    let opened: Result<(), CaptureError<String>> =
        session.set_audio_target("system".to_string(), |target, _| {
            assert!(matches!(target, AudioTarget::System));
            Ok(first.clone())
        });
    assert!(opened.is_ok());
    assert_eq!(Rc::strong_count(&first), 2);
    let error = session
        .set_audio_target("vlc".to_string(), |target, _| match target {
            AudioTarget::AppByName(name) => Err(format!("no {name}")),
            _ => unreachable!(),
        })
        .unwrap_err();
    assert_eq!(error.message(), "audio: no vlc");
    assert_eq!(Rc::strong_count(&first), 1);
    assert!(session.audio.is_none());
    session.audio = Some(Rc::new(2));
    let off: Result<(), CaptureError<String>> =
        session.set_audio_target("none".to_string(), |_, _| unreachable!());
    assert!(off.is_ok());
    assert!(session.audio.is_none());
    assert!(session.portal.is_some());
    assert!(session.is_capturing());
}

#[test]
fn audio_is_read_as_bytes() {
    let mut session = picked();
    assert!(session.read_audio(|_| unreachable!()).is_none());
    session.audio = Some(Rc::new(2));
    assert!(session.read_audio(|_| None).is_none());
    let chunk = session
        .read_audio(|capture| {
            Some(AudioBuffer { channels: **capture, sample_rate: 44100, data: vec![0x0403_0201] })
        })
        .unwrap();
    assert_eq!((chunk.channels, chunk.sample_rate), (2, 44100));
    assert_eq!(chunk.data, vec![1, 2, 3, 4]);
}

#[test]
fn chunk_holds_the_bytes_of_floats() {
    let samples = [1.0f32, -2.5];
    let data = samples.iter().map(|s| s.to_bits()).collect();
    let chunk = audio_chunk(&AudioBuffer { channels: 2, sample_rate: 48000, data });
    let expected: Vec<u8> = samples.iter().flat_map(|s| s.to_le_bytes()).collect();
    assert_eq!(chunk.data, expected);
}

#[test]
fn apps_are_listed_for_the_caller() {
    let entries = [
        ("media.class", "Stream/Output/Audio"),
        ("application.name", "Firefox"),
        ("application.process.binary", "firefox"),
    ];
    let entries = entries.iter().map(|(k, v)| (k.to_string(), v.to_string())).collect();
    let global = Global { id: 1, type_: ObjectType::Node, props: Some(Dict { entries }) };
    let announced: Result<_, String> = Ok(vec![global]);
    let apps = list_audio_apps(announced).unwrap();
    assert_eq!(apps.len(), 1);
    assert_eq!((apps[0].name.as_str(), apps[0].binary.as_str()), ("Firefox", "firefox"));
    let error = list_audio_apps(Err("no server".to_string())).unwrap_err();
    assert!(matches!(&error, CaptureError::ListApps(reason) if reason == "no server"));
    assert_eq!(error.message(), "list apps: no server");
}

#[test]
fn listed_app_can_be_selected() {
    let pairs = [("media.class", "Stream/Output/Audio"), ("application.name", "Music Player")];
    let entries = || pairs.iter().map(|(k, v)| (k.to_string(), v.to_string())).collect();
    let global = |entries| Global {
        id: 1,
        type_: ObjectType::Node,
        props: Some(Dict { entries }),
    };
    let announced: Result<_, String> = Ok(vec![global(entries())]);
    let name = list_audio_apps(announced).unwrap().remove(0).name;
    match target_by_name(name) {
        Some(AudioTarget::AppByName(app)) => {
            let capture: AppCapture<()> = AppCapture::by_name(app);
            assert!(capture.wants(&global(entries())));
        }
        other => panic!("{other:?}"),
    }
}

#[test]
fn stop_ends_all_and_hands_out_the_pick() {
    let mut session = picked();
    let capture = Rc::new(0);
    let targets = RefCell::new(Vec::new());
    start(&mut session, &options(true, 1, None), None, &capture, &targets).unwrap();
    assert_eq!(Rc::strong_count(&capture), 3);
    let handle = session.stop_capture().unwrap();
    assert_eq!((handle.pipewire_fd, handle.session), (None, Some("portal")));
    assert_eq!(Rc::strong_count(&capture), 1);
    assert!(!session.is_capturing());
    assert!(session.stop_capture().is_none());
}

#[test]
fn new_start_replaces_what_ran() {
    let mut session = picked();
    let targets = RefCell::new(Vec::new());
    let (first, second) = (Rc::new(1), Rc::new(2));
    start(&mut session, &options(true, 1, None), None, &first, &targets).unwrap();
    session.begin_picker();
    pick(&mut session, 4);
    start(&mut session, &options(false, 1, None), None, &second, &targets).unwrap();
    // The audio that ran goes on where none is asked for.
    assert_eq!((Rc::strong_count(&first), Rc::strong_count(&second)), (2, 2));
    assert!(session.is_capturing());
}

#[test]
fn consumed_pick_is_refused_whatever_became_of_the_captures() {
    let mut session = picked();
    let targets = RefCell::new(Vec::new());
    let capture = Rc::new(0);
    start(&mut session, &options(true, 1, None), None, &capture, &targets).unwrap();
    session.video = None;
    let off: Result<(), CaptureError<String>> =
        session.set_audio_target("none".to_string(), |_, _| unreachable!());
    assert!(off.is_ok());
    let result = start(&mut session, &options(true, 1, None), None, &capture, &targets);
    assert!(matches!(result, Err(CaptureError::FdConsumed)));
    assert!(!session.is_capturing());
    assert!(session.audio.is_none());
}

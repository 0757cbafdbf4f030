use std::cell::RefCell;
use std::rc::Rc;

use pipecap::audio::app::AppCapture;
use pipecap::audio::resolve::SessionMatcher;
use pipecap::registry::{Dict, Global, ObjectType};

fn node(id: u32, entries: &[(&str, &str)]) -> Global {
    let entries = entries.iter().map(|(k, v)| (k.to_string(), v.to_string())).collect();
    Global { id, type_: ObjectType::Node, props: Some(Dict { entries }) }
}

fn player(id: u32, name: &str) -> Global {
    node(id, &[("media.class", "Stream/Output/Audio"), ("application.name", name)])
}

/// Announces `global`, noting the removed sources, with a stream that counts
/// as alive while `alive` is shared.
fn announce(
    capture: &mut AppCapture<Rc<u32>>,
    global: &Global,
    removed: &RefCell<Vec<u32>>,
    alive: &Rc<u32>,
) -> Option<Result<(), String>> {
    capture.on_global(global, |id| removed.borrow_mut().push(id), |_, _| Ok(alive.clone()))
}

#[test]
fn only_matching_streams_are_wanted() {
    let capture: AppCapture<()> = AppCapture::by_name("Firefox".to_string());
    assert!(capture.wants(&player(1, "firefox")));
    assert!(!capture.wants(&player(1, "vlc")));
    assert!(!capture.wants(&node(1, &[("application.name", "firefox")])));
    let client = Global { type_: ObjectType::Other, ..player(1, "firefox") };
    assert!(!capture.wants(&client));
    assert!(!capture.wants(&Global { id: 1, type_: ObjectType::Node, props: None }));
}

#[test]
fn without_a_matcher_any_stream_is_wanted() {
    let capture: AppCapture<()> = AppCapture::new(None);
    assert!(capture.wants(&player(1, "vlc")));
    assert!(!capture.wants(&node(1, &[("media.class", "Audio/Sink")])));
}

#[test]
fn video_node_decides_what_is_wanted() {
    let globals = vec![
        node(10, &[("media.name", "kwin-screencast-org.videolan.VLC")]),
        node(11, &[("node.link-group", "lg")]),
        node(12, &[("media.name", "other")]),
    ];
    let by_app: AppCapture<()> = AppCapture::from_video_node(&globals, 10);
    assert!(by_app.wants(&player(1, "vlc")));
    assert!(!by_app.wants(&player(1, "firefox")));
    let by_group: AppCapture<()> = AppCapture::from_video_node(&globals, 11);
    assert!(!by_group.wants(&player(1, "vlc")));
    let grouped = node(1, &[("media.class", "Stream/Output/Audio"), ("node.link-group", "lg")]);
    assert!(by_group.wants(&grouped));
    let any: AppCapture<()> = AppCapture::from_video_node(&globals, 12);
    assert!(any.wants(&player(1, "vlc")));
}

#[test]
fn only_the_newest_stream_runs() {
    let mut capture = AppCapture::new(Some(SessionMatcher::AppName("vlc".to_string())));
    let removed = RefCell::new(Vec::new());
    let (first, second) = (Rc::new(1), Rc::new(2));
    assert_eq!(announce(&mut capture, &player(1, "vlc"), &removed, &first), Some(Ok(())));
    assert_eq!(Rc::strong_count(&first), 2);
    assert!(removed.borrow().is_empty());
    assert_eq!(announce(&mut capture, &player(2, "vlc"), &removed, &second), Some(Ok(())));
    assert_eq!((Rc::strong_count(&first), Rc::strong_count(&second)), (1, 2));
    assert_eq!(*removed.borrow(), vec![1]);
}

#[test]
fn unwanted_stream_changes_nothing() {
    let mut capture = AppCapture::by_name("vlc".to_string());
    let removed = RefCell::new(Vec::new());
    let (first, second) = (Rc::new(1), Rc::new(2));
    announce(&mut capture, &player(1, "vlc"), &removed, &first);
    assert_eq!(announce(&mut capture, &player(2, "mpv"), &removed, &second), None);
    assert_eq!((Rc::strong_count(&first), Rc::strong_count(&second)), (2, 1));
    assert!(removed.borrow().is_empty());
}

#[test]
fn unwanted_object_is_met_with_nothing() {
    let mut capture = AppCapture::by_name("vlc".to_string());
    let removed = RefCell::new(Vec::new());
    let first = Rc::new(1);
    announce(&mut capture, &player(1, "vlc"), &removed, &first);
    let others = [
        player(2, "mpv"),
        node(3, &[("media.class", "Audio/Sink"), ("application.name", "vlc")]),
        Global { type_: ObjectType::Other, ..player(4, "vlc") },
        Global { id: 5, type_: ObjectType::Node, props: None },
    ];
    for global in &others {
        let outcome = capture.on_global(
            global,
            |_| unreachable!(),
            |_, _| -> Result<Rc<u32>, String> { unreachable!() },
        );
        assert_eq!(outcome, None);
    }
    assert!(!capture.on_global_remove(2, |_, _| unreachable!()));
    assert_eq!(Rc::strong_count(&first), 2);
}

#[test]
fn old_stream_is_gone_before_the_new_one_is_made() {
    let mut capture = AppCapture::by_name("vlc".to_string());
    let removed = RefCell::new(Vec::new());
    let first = Rc::new(1);
    announce(&mut capture, &player(1, "vlc"), &removed, &first);
    let outcome: Option<Result<(), String>> = capture.on_global(
        &player(2, "vlc"),
        |id| removed.borrow_mut().push(id),
        |_, _| {
            assert_eq!(Rc::strong_count(&first), 1);
            assert_eq!(*removed.borrow(), vec![1]);
            Ok(Rc::new(2))
        },
    );
    assert_eq!(outcome, Some(Ok(())));
}

#[test]
fn failed_stream_leaves_nothing_running() {
    let mut capture = AppCapture::by_name("vlc".to_string());
    let removed = RefCell::new(Vec::new());
    let first = Rc::new(1);
    announce(&mut capture, &player(1, "vlc"), &removed, &first);
    let outcome = capture.on_global(
        &player(2, "vlc"),
        |id| removed.borrow_mut().push(id),
        |id, _| Err(format!("no stream for {id}")),
    );
    assert_eq!(outcome, Some(Err("no stream for 2".to_string())));
    assert_eq!(Rc::strong_count(&first), 1);
    // The node that was connected before still counts as the connected one.
    assert!(capture.on_global_remove(1, |id, _| removed.borrow_mut().push(id)));
    assert_eq!(*removed.borrow(), vec![1, 1]);
}

#[test]
fn gone_node_is_not_captured() {
    let mut capture = AppCapture::by_name("vlc".to_string());
    let removed = RefCell::new(Vec::new());
    let first = Rc::new(1);
    announce(&mut capture, &player(1, "vlc"), &removed, &first);
    assert!(!capture.on_global_remove(5, |id, _| removed.borrow_mut().push(id)));
    assert_eq!(Rc::strong_count(&first), 2);
    assert!(capture.on_global_remove(1, |id, _| removed.borrow_mut().push(id)));
    assert_eq!(Rc::strong_count(&first), 1);
    assert!(!capture.on_global_remove(1, |id, _| removed.borrow_mut().push(id)));
    assert_eq!(*removed.borrow(), vec![1]);
}

#[test]
fn stream_is_gone_before_its_samples_are_removed() {
    let mut capture = AppCapture::by_name("vlc".to_string());
    let removed = RefCell::new(Vec::new());
    let first = Rc::new(1);
    announce(&mut capture, &player(1, "vlc"), &removed, &first);
    assert!(capture.on_global_remove(1, |id, _| {
        assert_eq!(Rc::strong_count(&first), 1);
        removed.borrow_mut().push(id);
    }));
    assert_eq!(*removed.borrow(), vec![1]);
}

#[test]
fn matcher_is_told() {
    let by_name: AppCapture<()> = AppCapture::by_name("vlc".to_string());
    assert!(matches!(by_name.matcher(), Some(SessionMatcher::AppName(name)) if name == "vlc"));
    let any: AppCapture<()> = AppCapture::new(None);
    assert!(any.matcher().is_none());
}

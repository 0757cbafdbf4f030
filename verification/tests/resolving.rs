use pipecap::audio::resolve::{
    audio_node_matches, list_audio_apps, name_matches, query_node_props, resolve_app_name,
    resolve_session_matcher, SessionMatcher,
};
use pipecap::registry::{dict_to_map, Dict, Global, ObjectType};

fn dict(entries: &[(&str, &str)]) -> Dict {
    Dict { entries: entries.iter().map(|(k, v)| (k.to_string(), v.to_string())).collect() }
}

fn node(id: u32, entries: &[(&str, &str)]) -> Global {
    Global { id, type_: ObjectType::Node, props: Some(dict(entries)) }
}

fn player(id: u32, name: &str, binary: &str) -> Global {
    node(
        id,
        &[
            ("media.class", "Stream/Output/Audio"),
            ("application.name", name),
            ("application.process.binary", binary),
        ],
    )
}

fn app(name: &str) -> SessionMatcher {
    SessionMatcher::AppName(name.to_string())
}

#[test]
fn first_pair_counts_in_a_dictionary_and_last_in_a_map() {
    let props = dict(&[("a", "1"), ("b", "2"), ("a", "3")]);
    assert_eq!(props.get("a").unwrap(), "1");
    assert!(props.has("b", "2"));
    assert!(!props.has("b", "3"));
    assert!(props.get("c").is_none());
    let map = dict_to_map(&props);
    assert_eq!(map.get("a").unwrap(), "3");
    assert_eq!(map.get("b").unwrap(), "2");
    assert!(map.get("c").is_none());
}

#[test]
fn dictionary_without_repeated_keys_agrees_with_its_map() {
    let props = dict(&[("a", "1"), ("b", "2")]);
    let map = dict_to_map(&props);
    for key in ["a", "b", "c"] {
        assert_eq!(props.get(key), map.get(key));
    }
}

#[test]
fn first_node_with_the_id_is_queried() {
    let globals = vec![
        Global { id: 5, type_: ObjectType::Other, props: Some(dict(&[("media.name", "x")])) },
        Global { id: 5, type_: ObjectType::Node, props: None },
        node(4, &[("media.name", "four")]),
        node(5, &[("media.name", "five")]),
        node(5, &[("media.name", "six")]),
    ];
    let props = query_node_props(&globals, 5).unwrap();
    assert_eq!(props.get("media.name").unwrap(), "five");
    assert!(query_node_props(&globals, 6).is_none());
}

#[test]
fn app_is_read_off_the_media_name() {
    let globals = vec![
        node(1, &[("media.name", "kwin-screencast-org.mozilla.firefox")]),
        node(2, &[("media.name", "kwin-screencast-")]),
        node(3, &[("media.name", "gnome-shell")]),
        node(4, &[("node.name", "kwin-screencast-firefox")]),
    ];
    assert_eq!(resolve_app_name(&globals, 1).unwrap(), "org.mozilla.firefox");
    assert_eq!(resolve_app_name(&globals, 2), None);
    assert_eq!(resolve_app_name(&globals, 3), None);
    assert_eq!(resolve_app_name(&globals, 4), None);
    assert_eq!(resolve_app_name(&globals, 5), None);
}

#[test]
fn link_group_comes_before_the_app() {
    let globals = vec![
        node(1, &[("node.link-group", "g1"), ("media.name", "kwin-screencast-vlc")]),
        node(2, &[("node.link-group", ""), ("media.name", "kwin-screencast-vlc")]),
        node(3, &[("node.link-group", "")]),
        node(4, &[]),
    ];
    assert!(matches!(
        resolve_session_matcher(&globals, 1),
        Some(SessionMatcher::LinkGroup(group)) if group == "g1"
    ));
    assert!(matches!(
        resolve_session_matcher(&globals, 2),
        Some(SessionMatcher::AppName(name)) if name == "vlc"
    ));
    assert!(resolve_session_matcher(&globals, 3).is_none());
    assert!(resolve_session_matcher(&globals, 4).is_none());
    assert!(resolve_session_matcher(&globals, 9).is_none());
}

#[test]
fn known_app_has_a_matcher() {
    let globals = vec![node(1, &[("media.name", "kwin-screencast-vlc")])];
    let name = resolve_app_name(&globals, 1).unwrap();
    assert!(matches!(
        resolve_session_matcher(&globals, 1),
        Some(SessionMatcher::AppName(matched)) if matched == name
    ));
}

#[test]
fn link_group_matches_exactly() {
    let group = SessionMatcher::LinkGroup("G1".to_string());
    assert!(audio_node_matches(&dict(&[("node.link-group", "G1")]), &group));
    assert!(!audio_node_matches(&dict(&[("node.link-group", "g1")]), &group));
    assert!(!audio_node_matches(&dict(&[("application.name", "G1")]), &group));
}

#[test]
fn app_matches_by_any_of_three_properties() {
    let matcher = app("firefox");
    for key in ["application.name", "application.process.binary", "node.name"] {
        assert!(audio_node_matches(&dict(&[(key, "firefox")]), &matcher));
        assert!(!audio_node_matches(&dict(&[(key, "firefox-esr")]), &matcher));
    }
    assert!(!audio_node_matches(&dict(&[("media.name", "firefox")]), &matcher));
    assert!(!audio_node_matches(&dict(&[]), &matcher));
}

#[test]
fn matching_ignores_case() {
    let props = dict(&[("application.name", "FireFox")]);
    assert!(audio_node_matches(&props, &app("FIREFOX")));
    assert!(audio_node_matches(&props, &app("firefox")));
    // Upper and lower case beyond ASCII.
    let props = dict(&[("application.name", "ÄÖÜ")]);
    assert!(audio_node_matches(&props, &app("äöü")));
}

#[test]
fn last_segment_matches() {
    let matcher = app("org.mozilla.Firefox");
    assert!(audio_node_matches(&dict(&[("application.name", "Firefox")]), &matcher));
    assert!(audio_node_matches(&dict(&[("node.name", "ORG.mozilla.firefox")]), &matcher));
    assert!(!audio_node_matches(&dict(&[("node.name", "mozilla.firefox")]), &matcher));
    assert!(!audio_node_matches(&dict(&[("node.name", "mozilla")]), &matcher));
    assert!(name_matches("a.b", "b"));
    assert!(name_matches("a.b", "a.b"));
    assert!(name_matches("a.", ""));
    assert!(!name_matches("b", "a.b"));
}

#[test]
fn apps_are_listed_by_name_and_once() {
    let globals = vec![
        player(1, "vlc", "vlc-bin"),
        player(2, "Firefox", "firefox"),
        player(3, "vlc", "other"),
        player(4, "", "nameless"),
        node(5, &[("media.class", "Stream/Input/Audio"), ("application.name", "recorder")]),
        node(6, &[("media.class", "Stream/Output/Audio"), ("application.name", "mpv")]),
        node(7, &[("media.class", "Stream/Output/Audio")]),
        Global { id: 8, type_: ObjectType::Other, props: player(8, "client", "c").props },
        Global { id: 9, type_: ObjectType::Node, props: None },
    ];
    let apps: Vec<(String, String)> =
        list_audio_apps(&globals).into_iter().map(|app| (app.name, app.binary)).collect();
    let expected: Vec<(String, String)> = [("Firefox", "firefox"), ("mpv", ""), ("vlc", "vlc-bin")]
        .iter()
        .map(|(name, binary)| (name.to_string(), binary.to_string()))
        .collect();
    assert_eq!(apps, expected);
}

#[test]
fn listing_orders_as_text_does() {
    let mut names = vec!["ab", "a", "b", "B", "ä", "a b", "Ab", "\u{10000}", "\u{ffff}"];
    let globals: Vec<Global> =
        names.iter().enumerate().map(|(i, name)| player(i as u32, name, "")).collect();
    names.sort();
    let listed: Vec<String> = list_audio_apps(&globals).into_iter().map(|app| app.name).collect();
    assert_eq!(listed, names);
}

#[test]
fn listed_name_selects_its_stream() {
    let globals = vec![player(1, "Music Player", "mp"), player(2, "vlc", "vlc-bin")];
    for listed in list_audio_apps(&globals) {
        assert!(!listed.name.is_empty());
        let matched = globals
            .iter()
            .filter(|global| audio_node_matches(global.audio_props().unwrap(), &app(&listed.name)))
            .count();
        assert_eq!(matched, 1);
    }
}

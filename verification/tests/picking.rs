use pipecap::portal::{
    requested_sources, restore_token_place, BaseDir, CursorMode, PersistMode, PortalAction,
    PortalEvent, PortalHandle, PortalOutcome, PortalRequest, SourceKind, SourceRequest,
    SourceSelection, StreamInfo, StreamReply,
};
use pipecap::pw_util::{Roundtrip, CORE_ID};

type Request = PortalRequest<String>;

fn reply(node_id: u32, source: Option<SourceKind>, size: Option<(i32, i32)>) -> StreamReply {
    StreamReply { node_id, source, size }
}

/// Steps through `events`, and lists the actions that were asked for.
fn run(request: Request, events: Vec<PortalEvent<String>>) -> (Vec<PortalAction>, Request) {
    let mut actions = vec![request.action()];
    let mut request = request;
    for event in events {
        request = request.step(event);
        actions.push(request.action());
    }
    (actions, request)
}

fn outcome(request: Request) -> PortalOutcome<String> {
    match request {
        PortalRequest::Finished(outcome) => outcome,
        other => panic!("not finished: {other:?}"),
    }
}

#[test]
fn source_types_select_monitors_windows_or_both() {
    assert_eq!(requested_sources(1), SourceSelection { monitor: true, window: false });
    assert_eq!(requested_sources(2), SourceSelection { monitor: false, window: true });
    assert_eq!(requested_sources(3), SourceSelection { monitor: true, window: true });
    assert_eq!(requested_sources(0), SourceSelection { monitor: true, window: true });
}

#[test]
fn granted_request_keeps_its_session() {
    let streams = vec![
        reply(10, Some(SourceKind::Monitor), Some((1920, 1080))),
        reply(11, Some(SourceKind::Window), None),
        reply(12, Some(SourceKind::Virtual), Some((1, 2))),
        reply(13, None, None),
    ];
    let (actions, request) = run(
        PortalRequest::new(1),
        vec![
            PortalEvent::Succeeded,
            PortalEvent::Succeeded,
            PortalEvent::Succeeded,
            PortalEvent::Responded(streams),
            PortalEvent::Succeeded,
        ],
    );
    assert_eq!(
        actions,
        vec![
            PortalAction::Connect,
            PortalAction::CreateSession,
            PortalAction::SelectSources(SourceRequest {
                sources: SourceSelection { monitor: true, window: false },
                multiple: false,
                cursor: CursorMode::Embedded,
                restore_token: None,
                persist: PersistMode::DoNot,
            }),
            PortalAction::Start,
            PortalAction::OpenRemote,
            PortalAction::Finish,
        ]
    );
    let info = |node_id, source_type, width, height| StreamInfo {
        node_id,
        source_type,
        width,
        height,
    };
    match outcome(request) {
        PortalOutcome::Opened(streams) => assert_eq!(
            streams,
            vec![info(10, 1, 1920, 1080), info(11, 2, 0, 0), info(12, 0, 1, 2), info(13, 0, 0, 0)]
        ),
        other => panic!("{other:?}"),
    }
}

#[test]
fn every_pick_is_asked_for_once() {
    for source_types in [0, 1, 2, 3, 7] {
        let mut request: Request = PortalRequest::new(source_types);
        let mut asked = Vec::new();
        while request.action() != PortalAction::Finish {
            if let PortalAction::SelectSources(sources) = request.action() {
                asked.push(sources);
            }
            let event = match request.action() {
                PortalAction::Start => PortalEvent::Responded(vec![reply(1, None, None)]),
                _ => PortalEvent::Succeeded,
            };
            request = request.step(event);
        }
        assert_eq!(asked.len(), 1);
        assert_eq!(asked[0].sources, requested_sources(source_types));
        assert_eq!((asked[0].restore_token, asked[0].persist), (None, PersistMode::DoNot));
        assert!(!asked[0].multiple);
    }
}

#[test]
fn cancelling_closes_the_session_and_is_no_error() {
    for picked_nothing in [false, true] {
        for closed in [PortalEvent::Succeeded, PortalEvent::Failed("gone".to_string())] {
            let answer =
                if picked_nothing { PortalEvent::Responded(vec![]) } else { PortalEvent::Cancelled };
            let (actions, request) = run(PortalRequest::Starting, vec![answer, closed]);
            assert_eq!(actions[1..], [PortalAction::CloseSession, PortalAction::Finish]);
            assert!(matches!(outcome(request), PortalOutcome::Cancelled));
        }
    }
}

#[test]
fn failure_before_a_session_closes_nothing() {
    for before in 0..2 {
        let mut events: Vec<PortalEvent<String>> = Vec::new();
        for _ in 0..before {
            events.push(PortalEvent::Succeeded);
        }
        events.push(PortalEvent::Failed("broken".to_string()));
        let (actions, request) = run(PortalRequest::new(3), events);
        assert!(!actions.contains(&PortalAction::CloseSession));
        assert!(matches!(outcome(request), PortalOutcome::Failed(error) if error == "broken"));
    }
}

#[test]
fn failure_with_a_session_closes_it() {
    let states = || {
        vec![
            Request::SelectingSources(requested_sources(3)),
            Request::Starting,
            Request::OpeningRemote(vec![]),
        ]
    };
    for state in states() {
        let failed = PortalEvent::Failed("broken".to_string());
        let (actions, request) = run(state, vec![failed, PortalEvent::Succeeded]);
        assert_eq!(actions[1..], [PortalAction::CloseSession, PortalAction::Finish]);
        assert!(matches!(outcome(request), PortalOutcome::Failed(error) if error == "broken"));
    }
}

#[test]
fn event_that_answers_nothing_changes_nothing() {
    let (actions, _) = run(
        PortalRequest::new(2),
        vec![PortalEvent::Cancelled, PortalEvent::Responded(vec![])],
    );
    assert_eq!(actions, vec![PortalAction::Connect; 3]);
}

#[test]
fn earlier_token_lies_under_the_state_directory() {
    assert_eq!(
        restore_token_place(true, true),
        Some((BaseDir::StateHome, vec!["pipecap", "restore-token"]))
    );
    assert_eq!(
        restore_token_place(true, false),
        Some((BaseDir::StateHome, vec!["pipecap", "restore-token"]))
    );
    assert_eq!(
        restore_token_place(false, true),
        Some((BaseDir::Home, vec![".local/state", "pipecap", "restore-token"]))
    );
    assert_eq!(restore_token_place(false, false), None);
}

#[test]
fn descriptor_and_session_are_taken_once() {
    let mut handle = PortalHandle { streams: vec![], pipewire_fd: Some(3), session: Some("s") };
    assert_eq!(handle.take_fd(), Some(3));
    assert_eq!(handle.take_fd(), None);
    assert_eq!(handle.take_session(), Some("s"));
    assert_eq!(handle.take_session(), None);
}

#[test]
fn wait_ends_with_its_report() {
    let mut wait = Roundtrip::new(5);
    assert!(!wait.on_done(CORE_ID, 4));
    assert!(!wait.on_done(1, 5));
    assert!(!wait.done);
    assert!(wait.on_done(CORE_ID, 5));
    assert!(wait.done);
    assert!(!wait.on_done(CORE_ID, 6));
    assert!(wait.done);
}

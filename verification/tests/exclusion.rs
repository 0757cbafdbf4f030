use std::cell::{Cell, RefCell};
use std::rc::Rc;

use pipecap::audio::system_exclude::{
    any_excluded, name_listed, parse_pids, Announced, Attach, Bound, ExcludedBy, State,
};
use pipecap::registry::{Dict, Global, ObjectType};

type Capture = State<Rc<u32>, Rc<u32>>;

fn dict(entries: &[(&str, &str)]) -> Dict {
    Dict { entries: entries.iter().map(|(k, v)| (k.to_string(), v.to_string())).collect() }
}

fn player(id: u32, name: Option<&str>) -> Global {
    let mut entries = vec![("media.class", "Stream/Output/Audio")];
    if let Some(name) = name {
        entries.push(("application.name", name));
    }
    Global { id, type_: ObjectType::Node, props: Some(dict(&entries)) }
}

fn excluding(pids: &[u32], names: &[&str]) -> Capture {
    let names: Vec<String> = names.iter().map(|name| name.to_string()).collect();
    State::new(pids.to_vec(), &names)
}

fn look(
    state: &mut Capture,
    id: u32,
    pids: &[u32],
    name: Option<&str>,
    stream: &Rc<u32>,
) -> Attach<String> {
    state.try_attach(id, pids, name, |_| Ok(stream.clone()))
}

#[test]
fn processes_are_read_from_both_properties() {
    let pids = |entries: &[(&str, &str)]| parse_pids(&dict(entries));
    assert_eq!(pids(&[]), vec![]);
    assert_eq!(pids(&[("application.process.id", "12")]), vec![12]);
    assert_eq!(pids(&[("pipewire.sec.pid", "7")]), vec![7]);
    assert_eq!(pids(&[("application.process.id", "12"), ("pipewire.sec.pid", "7")]), vec![7, 12]);
    assert_eq!(pids(&[("application.process.id", "7"), ("pipewire.sec.pid", "7")]), vec![7]);
    assert_eq!(pids(&[("application.process.id", "x"), ("pipewire.sec.pid", "-1")]), vec![]);
    assert_eq!(pids(&[("application.process.id", "4294967296")]), vec![]);
}

#[test]
fn any_common_process_excludes() {
    assert!(any_excluded(&[1, 2], &[5, 2]));
    assert!(!any_excluded(&[1, 2], &[5, 6]));
    assert!(!any_excluded(&[], &[5]));
    assert!(!any_excluded(&[5], &[]));
}

#[test]
fn names_are_listed_exactly() {
    let names = vec!["a".to_string(), "b".to_string()];
    assert!(name_listed(&names, "b"));
    assert!(!name_listed(&names, "B"));
    assert!(!name_listed(&[], "a"));
}

#[test]
fn excluded_process_is_left_out() {
    let mut state = excluding(&[100], &[]);
    let stream = Rc::new(0);
    let outcome = look(&mut state, 1, &[99, 100], Some("app"), &stream);
    assert!(matches!(outcome, Attach::Excluded(ExcludedBy::Pid)));
    assert_eq!(Rc::strong_count(&stream), 1);
}

#[test]
fn excluded_name_is_left_out_in_any_case() {
    let mut state = excluding(&[], &["My App", "ÉCOUTE"]);
    let stream = Rc::new(0);
    let outcome = look(&mut state, 1, &[5], Some("MY APP"), &stream);
    assert!(matches!(outcome, Attach::Excluded(ExcludedBy::Name)));
    let outcome = look(&mut state, 2, &[], Some("écoute"), &stream);
    assert!(matches!(outcome, Attach::Excluded(ExcludedBy::Name)));
    let outcome = look(&mut state, 3, &[], Some("my-app"), &stream);
    assert!(matches!(outcome, Attach::Captured));
}

#[test]
fn process_is_the_reason_before_the_name() {
    let mut state = excluding(&[5], &["app"]);
    let outcome = look(&mut state, 1, &[5], Some("app"), &Rc::new(0));
    assert!(matches!(outcome, Attach::Excluded(ExcludedBy::Pid)));
}

#[test]
fn unknown_node_is_captured() {
    let mut state = excluding(&[100], &["app"]);
    let stream = Rc::new(0);
    assert!(matches!(look(&mut state, 1, &[], None, &stream), Attach::Captured));
    assert_eq!(Rc::strong_count(&stream), 2);
}

#[test]
fn left_out_stays_out() {
    let mut state = excluding(&[100], &[]);
    let stream = Rc::new(0);
    look(&mut state, 1, &[100], None, &stream);
    // Later information lacks the process.
    assert!(matches!(look(&mut state, 1, &[], None, &stream), Attach::Decided));
    state.on_global_remove(2, |_, _| ());
    assert!(matches!(look(&mut state, 1, &[], None, &stream), Attach::Decided));
    assert_eq!(Rc::strong_count(&stream), 1);
}

#[test]
fn first_decision_stands() {
    let mut state = excluding(&[100], &[]);
    let stream = Rc::new(0);
    look(&mut state, 1, &[], None, &stream);
    assert!(matches!(look(&mut state, 1, &[100], None, &stream), Attach::Decided));
    assert_eq!(Rc::strong_count(&stream), 2);
}

#[test]
fn failed_stream_is_tried_again() {
    let mut state = excluding(&[], &[]);
    let outcome = state.try_attach(1, &[], None, |id| Err(format!("node {id}")));
    assert!(matches!(outcome, Attach::Failed(error) if error == "node 1"));
    assert!(matches!(look(&mut state, 1, &[], None, &Rc::new(0)), Attach::Captured));
}

#[test]
fn no_stream_is_made_for_an_excluded_or_decided_node() {
    let mut state = excluding(&[42], &["mine"]);
    let none = |_: u32| -> Result<Rc<u32>, String> { unreachable!() };
    let info = dict(&[("application.process.id", "42")]);
    let outcome = state.on_info(7, Some(&info), None, none);
    assert!(matches!(outcome, Attach::Excluded(ExcludedBy::Pid)));
    // Later information does not name the process any more.
    assert!(matches!(state.on_info(7, None, None, none), Attach::Decided));
    assert!(matches!(state.try_attach(7, &[], None, none), Attach::Decided));
    let outcome = state.try_attach(8, &[], Some("Mine"), none);
    assert!(matches!(outcome, Attach::Excluded(ExcludedBy::Name)));
    assert!(matches!(look(&mut state, 9, &[], None, &Rc::new(0)), Attach::Captured));
    assert!(matches!(state.try_attach(9, &[], None, none), Attach::Decided));
}

#[test]
fn gone_node_is_forgotten() {
    let mut state = excluding(&[100], &[]);
    let stream = Rc::new(0);
    let removed = RefCell::new(Vec::new());
    look(&mut state, 1, &[], None, &stream);
    look(&mut state, 2, &[100], None, &stream);
    state.on_global_remove(1, |id, _| removed.borrow_mut().push(id));
    state.on_global_remove(2, |id, _| removed.borrow_mut().push(id));
    assert_eq!(*removed.borrow(), vec![1, 2]);
    assert_eq!(Rc::strong_count(&stream), 1);
    assert!(matches!(look(&mut state, 1, &[100], None, &stream), Attach::Excluded(_)));
    assert!(matches!(look(&mut state, 2, &[], None, &stream), Attach::Captured));
}

#[test]
fn information_decides() {
    let mut state = excluding(&[100], &["mine"]);
    let stream = Rc::new(0);
    let info = dict(&[("application.process.id", "100")]);
    let create = |_| Ok::<Rc<u32>, String>(stream.clone());
    let outcome = state.on_info(1, Some(&info), None, create);
    assert!(matches!(outcome, Attach::Excluded(ExcludedBy::Pid)));
    assert!(matches!(state.on_info(2, None, None, create), Attach::Captured));
    let outcome = state.on_info(3, Some(&dict(&[])), Some("Mine"), create);
    assert!(matches!(outcome, Attach::Excluded(ExcludedBy::Name)));
    let info = dict(&[("pipewire.sec.pid", "100"), ("application.process.id", "3")]);
    let outcome = state.on_info(4, Some(&info), None, create);
    assert!(matches!(outcome, Attach::Excluded(ExcludedBy::Pid)));
}

#[test]
fn announced_stream_is_bound_and_watched() {
    let mut state = excluding(&[100], &[]);
    let binding = Rc::new(0);
    let given = RefCell::new(None);
    let created = Cell::new(false);
    let outcome = state.on_global(
        &player(4, Some("App")),
        |id, name| {
            *given.borrow_mut() = Some((id, name));
            Bound::Node(binding.clone())
        },
        |_| {
            created.set(true);
            Err(String::new())
        },
    );
    assert!(matches!(outcome, Announced::Watched));
    assert_eq!(*given.borrow(), Some((4, Some("App".to_string()))));
    assert!(!created.get());
    assert_eq!(Rc::strong_count(&binding), 2);
    state.on_global_remove(4, |_, _| ());
    assert_eq!(Rc::strong_count(&binding), 1);
}

#[test]
fn stream_that_cannot_be_bound_is_decided_by_name() {
    let mut state = excluding(&[100], &["mine"]);
    let stream = Rc::new(0);
    let outcome: Announced<String> =
        state.on_global(&player(1, Some("Mine")), |_, _| Bound::Failed, |_| Ok(stream.clone()));
    assert!(matches!(outcome, Announced::Unbound(Attach::Excluded(ExcludedBy::Name))));
    let outcome: Announced<String> =
        state.on_global(&player(2, None), |_, _| Bound::Failed, |_| Ok(stream.clone()));
    assert!(matches!(outcome, Announced::Unbound(Attach::Captured)));
    assert_eq!(Rc::strong_count(&stream), 2);
}

#[test]
fn what_plays_no_audio_is_ignored() {
    let mut state = excluding(&[], &[]);
    let others = [
        Global { id: 1, type_: ObjectType::Node, props: None },
        Global { type_: ObjectType::Other, ..player(2, None) },
        Global { props: Some(dict(&[("media.class", "Audio/Sink")])), ..player(3, None) },
    ];
    for global in &others {
        let outcome = state.on_global(
            global,
            |_, _| unreachable!(),
            |_| -> Result<Rc<u32>, String> { unreachable!() },
        );
        assert!(matches!(outcome, Announced::Ignored));
    }
    let outcome: Announced<String> =
        state.on_global(&player(4, None), |_, _| Bound::Gone, |_| unreachable!());
    assert!(matches!(outcome, Announced::Gone));
}

#[test]
fn stream_of_a_gone_node_is_gone_before_its_samples_are_removed() {
    let mut state = excluding(&[], &[]);
    let stream = Rc::new(0);
    look(&mut state, 1, &[], None, &stream);
    let removed = Cell::new(None);
    state.on_global_remove(1, |id, _| {
        assert_eq!(Rc::strong_count(&stream), 1);
        removed.set(Some(id));
    });
    assert_eq!(removed.get(), Some(1));
}

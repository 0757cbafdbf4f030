//! Which application a captured window belongs to, which audio nodes belong
//! to an application, and which applications play audio.
use vstd::prelude::*;

use crate::registry::{
    as_map, dict_to_map, first_value, Dict, DictView, Global, PropMap, APPLICATION_BINARY,
    APPLICATION_NAME,
};
use crate::text;
use crate::text::{after_last_dot, lowercase, precedes, starts_with};

verus! {

/// Property of a node: the group of links it belongs to.
pub const LINK_GROUP: &'static str = "node.link-group";

/// Property of a node: the name of the media it carries.
pub const MEDIA_NAME: &'static str = "media.name";

/// Property of a node: its name.
pub const NODE_NAME: &'static str = "node.name";

/// What KWin puts before the application in the media name of a window capture.
pub const KWIN_PREFIX: &'static str = "kwin-screencast-";

/// How the audio nodes of a video capture are recognised.
#[derive(Clone, Debug)]
pub enum SessionMatcher {
    LinkGroup(String),
    AppName(String),
}

/// The texts in a matcher.
pub enum MatcherView {
    LinkGroup(Seq<char>),
    AppName(Seq<char>),
}

impl View for SessionMatcher {
    type V = MatcherView;

    open spec fn view(&self) -> MatcherView {
        match self {
            SessionMatcher::LinkGroup(group) => MatcherView::LinkGroup(group@),
            SessionMatcher::AppName(app) => MatcherView::AppName(app@),
        }
    }
}

/// The properties of the first announced node with the id `node_id`.
pub open spec fn node_dict(globals: Seq<Global>, node_id: u32) -> Option<DictView>
    decreases globals.len(),
{
    if globals.len() == 0 {
        None
    } else if globals[0].is_node() && globals[0].id == node_id {
        Some(globals[0].props->0@)
    } else {
        node_dict(globals.drop_first(), node_id)
    }
}

/// The application that the media name of a video node names: what follows
/// KWin's prefix, if anything does.
pub open spec fn captured_app(props: Map<Seq<char>, Seq<char>>) -> Option<Seq<char>> {
    if props.contains_key(MEDIA_NAME@) && starts_with(props[MEDIA_NAME@], KWIN_PREFIX@)
        && props[MEDIA_NAME@].len() > KWIN_PREFIX@.len() {
        Some(props[MEDIA_NAME@].skip(KWIN_PREFIX@.len() as int))
    } else {
        None
    }
}

/// How to recognise the audio nodes of a capture whose video node has these
/// properties: by its link group if it has one, else by its application.
pub open spec fn session_matcher(props: Map<Seq<char>, Seq<char>>) -> Option<MatcherView> {
    if props.contains_key(LINK_GROUP@) && props[LINK_GROUP@].len() > 0 {
        Some(MatcherView::LinkGroup(props[LINK_GROUP@]))
    } else {
        match captured_app(props) {
            Some(app) => Some(MatcherView::AppName(app)),
            None => None,
        }
    }
}

/// Whether an application that is called `value` is the one called `target`,
/// both in lower case. A target in reverse domain notation is also met by its
/// last segment.
pub open spec fn is_called(target: Seq<char>, value: Seq<char>) -> bool {
    value == target || value == after_last_dot(target)
}

/// Whether the property `key` names the application `app`, in any case.
pub open spec fn property_names(props: DictView, key: Seq<char>, app: Seq<char>) -> bool {
    match first_value(props, key) {
        Some(value) => is_called(lowercase(app), lowercase(value)),
        None => false,
    }
}

/// Whether a node with these properties belongs to the session.
pub open spec fn node_matches(props: DictView, matcher: MatcherView) -> bool {
    match matcher {
        MatcherView::LinkGroup(group) => first_value(props, LINK_GROUP@) == Some(group),
        MatcherView::AppName(app) => {
            ||| property_names(props, APPLICATION_NAME@, app)
            ||| property_names(props, APPLICATION_BINARY@, app)
            ||| property_names(props, NODE_NAME@, app)
        },
    }
}

/// The properties of the node `node_id`, from what the registry announced.
pub fn query_node_props(globals: &[Global], node_id: u32) -> (props: Option<PropMap>)
    ensures
        props is Some <==> node_dict(globals@, node_id) is Some,
        props matches Some(props) ==> props@ == as_map(node_dict(globals@, node_id)->0),
{
    assert(globals@.skip(0) == globals@);
    for i in 0..globals.len()
        invariant
            node_dict(globals@, node_id) == node_dict(globals@.skip(i as int), node_id),
    {
        assert(globals@.skip(i as int).drop_first() == globals@.skip(i + 1));
        if globals[i].id == node_id {
            if let Some(dict) = globals[i].node_props() {
                return Some(dict_to_map(dict));
            }
        }
    }
    None
}

/// The application that the media name of a video node names.
fn app_of(props: &PropMap) -> (app: Option<String>)
    ensures
        app is Some <==> captured_app(props@) is Some,
        app matches Some(app) ==> captured_app(props@) == Some(app@),
{
    match props.get(MEDIA_NAME) {
        Some(name) => match text::strip_prefix(name, KWIN_PREFIX) {
            Some(app) => if app.as_str().is_empty() {
                None
            } else {
                Some(app)
            },
            None => None,
        },
        None => None,
    }
}

/// How to recognise the audio nodes of a video capture session.
pub fn resolve_session_matcher(globals: &[Global], video_node_id: u32) -> (matcher: Option<
    SessionMatcher,
>)
    ensures
        match node_dict(globals@, video_node_id) {
            Some(dict) => match session_matcher(as_map(dict)) {
                Some(view) => matcher is Some && matcher->0@ == view,
                None => matcher is None,
            },
            None => matcher is None,
        },
{
    let props = match query_node_props(globals, video_node_id) {
        Some(props) => props,
        None => {
            return None;
        },
    };
    if let Some(group) = props.get(LINK_GROUP) {
        if !group.as_str().is_empty() {
            return Some(SessionMatcher::LinkGroup(group.clone()));
        }
    }
    match app_of(&props) {
        Some(app) => Some(SessionMatcher::AppName(app)),
        None => None,
    }
}

/// The name of the application whose window the video node captures; `None`
/// if it cannot be told.
pub fn resolve_app_name(globals: &[Global], video_node_id: u32) -> (app: Option<String>)
    ensures
        match node_dict(globals@, video_node_id) {
            Some(dict) => match captured_app(as_map(dict)) {
                Some(view) => app is Some && app->0@ == view,
                None => app is None,
            },
            None => app is None,
        },
{
    match query_node_props(globals, video_node_id) {
        Some(props) => app_of(&props),
        None => None,
    }
}

/// Whether an application that is called `value` is the one called `target`,
/// both in lower case.
pub fn name_matches(target: &str, value: &str) -> (r: bool)
    ensures
        r == is_called(target@, value@),
{
    text::same(value, target) || text::same(value, &text::last_segment(target))
}

/// Whether the property `key` names the application `target`, given in lower case.
fn property_matches(props: &Dict, key: &str, target: &str) -> (r: bool)
    ensures
        r == match first_value(props@, key@) {
            Some(value) => is_called(target@, lowercase(value)),
            None => false,
        },
{
    match props.get(key) {
        Some(value) => name_matches(target, &text::to_lowercase(value)),
        None => false,
    }
}

/// Whether an audio node with these properties belongs to the session.
pub fn audio_node_matches(props: &Dict, matcher: &SessionMatcher) -> (r: bool)
    ensures
        r == node_matches(props@, matcher@),
{
    match matcher {
        SessionMatcher::LinkGroup(group) => props.has(LINK_GROUP, group),
        SessionMatcher::AppName(app) => {
            let target = text::to_lowercase(app);
            property_matches(props, APPLICATION_NAME, &target) || property_matches(
                props,
                APPLICATION_BINARY,
                &target,
            ) || property_matches(props, NODE_NAME, &target)
        },
    }
}

/// An application that plays audio.
#[derive(Debug)]
pub struct AudioApp {
    pub name: String,
    pub binary: String,
}

/// The texts of an application's entry.
pub struct AppView {
    pub name: Seq<char>,
    pub binary: Seq<char>,
}

impl View for AudioApp {
    type V = AppView;

    open spec fn view(&self) -> AppView {
        AppView { name: self.name@, binary: self.binary@ }
    }
}

/// The entries of a list of applications.
pub open spec fn app_views(apps: Seq<AudioApp>) -> Seq<AppView> {
    apps.map_values(|a: AudioApp| a@)
}

/// The application that an announced object shows to play audio: a stream
/// that plays audio and gives its application a name.
pub open spec fn shown_app(global: Global) -> Option<AppView> {
    if global.plays_audio() {
        match first_value(global.props->0@, APPLICATION_NAME@) {
            Some(name) => if name.len() > 0 {
                Some(
                    AppView {
                        name,
                        binary: match first_value(global.props->0@, APPLICATION_BINARY@) {
                            Some(binary) => binary,
                            None => Seq::empty(),
                        },
                    },
                )
            } else {
                None
            },
            None => None,
        }
    } else {
        None
    }
}

/// The first application called `name` that the announced objects show.
pub open spec fn first_shown(globals: Seq<Global>, name: Seq<char>) -> Option<AppView>
    decreases globals.len(),
{
    if globals.len() == 0 {
        None
    } else {
        match first_shown(globals.drop_last(), name) {
            Some(app) => Some(app),
            None => match shown_app(globals.last()) {
                Some(app) => if app.name == name {
                    Some(app)
                } else {
                    None
                },
                None => None,
            },
        }
    }
}

/// Whether `apps` lists the applications that the objects show: ordered by
/// name, each name once, as it was first shown.
pub open spec fn is_listing(globals: Seq<Global>, apps: Seq<AppView>) -> bool {
    &&& forall|i: int, j: int|
        0 <= i < j < apps.len() ==> precedes(#[trigger] apps[i].name, #[trigger] apps[j].name)
    &&& forall|i: int|
        0 <= i < apps.len() ==> first_shown(globals, (#[trigger] apps[i]).name) == Some(apps[i])
    &&& forall|name: Seq<char>| #[trigger]
        first_shown(globals, name) is Some ==> exists|i: int|
            0 <= i < apps.len() && (#[trigger] apps[i]).name == name
}

/// The application that an announced object shows to play audio.
fn app_shown_by(global: &Global) -> (app: Option<AudioApp>)
    ensures
        app is Some <==> shown_app(*global) is Some,
        app matches Some(app) ==> shown_app(*global) == Some(app@),
{
    let props = match global.audio_props() {
        Some(props) => props,
        None => {
            return None;
        },
    };
    match props.get(APPLICATION_NAME) {
        Some(name) => if name.as_str().is_empty() {
            None
        } else {
            let binary = match props.get(APPLICATION_BINARY) {
                Some(binary) => binary.clone(),
                None => String::new(),
            };
            Some(AudioApp { name: name.clone(), binary })
        },
        None => None,
    }
}

/// A further object that shows a name already listed changes nothing.
proof fn lemma_known_name_changes_nothing(
    seen: Seq<Global>,
    now: Seq<Global>,
    apps: Seq<AppView>,
    view: AppView,
    at: int,
)
    requires
        now.len() > 0,
        now.drop_last() == seen,
        shown_app(now.last()) == Some(view),
        is_listing(seen, apps),
        0 <= at < apps.len(),
        apps[at].name == view.name,
    ensures
        is_listing(now, apps),
{
    assert(forall|name: Seq<char>| #[trigger] first_shown(now, name) == first_shown(seen, name));
}

/// A further object that shows a new name adds it, in its place.
proof fn lemma_new_name_is_inserted(
    seen: Seq<Global>,
    now: Seq<Global>,
    apps: Seq<AppView>,
    view: AppView,
    at: int,
)
    requires
        now.len() > 0,
        now.drop_last() == seen,
        shown_app(now.last()) == Some(view),
        is_listing(seen, apps),
        0 <= at <= apps.len(),
        forall|j: int| 0 <= j < at ==> precedes((#[trigger] apps[j]).name, view.name),
        at < apps.len() ==> !precedes(apps[at].name, view.name) && apps[at].name != view.name,
    ensures
        is_listing(now, apps.insert(at, view)),
{
    let longer = apps.insert(at, view);
    assert forall|j: int| at <= j < apps.len() implies precedes(
        view.name,
        (#[trigger] apps[j]).name,
    ) by {
        text::law_order_is_total(view.name, apps[at].name);
        if j > at {
            text::law_order_is_transitive(view.name, apps[at].name, apps[j].name);
        }
    }
    text::law_order_is_irreflexive(view.name);
    assert(first_shown(seen, view.name) is None);
    assert(first_shown(now, view.name) == Some(view));
    assert(forall|name: Seq<char>|
        name != view.name ==> #[trigger] first_shown(now, name) == first_shown(seen, name));
    assert forall|i: int, j: int| 0 <= i < j < longer.len() implies precedes(
        #[trigger] longer[i].name,
        #[trigger] longer[j].name,
    ) by {
        let a = if i < at { apps[i] } else if i == at { view } else { apps[i - 1] };
        let b = if j < at { apps[j] } else if j == at { view } else { apps[j - 1] };
        assert(longer[i] == a && longer[j] == b);
    }
    assert forall|i: int| 0 <= i < longer.len() implies first_shown(
        now,
        (#[trigger] longer[i]).name,
    ) == Some(longer[i]) by {
        if i < at {
            assert(longer[i] == apps[i]);
            assert(first_shown(seen, apps[i].name) == Some(apps[i]));
        } else if i > at {
            assert(longer[i] == apps[i - 1]);
            assert(first_shown(seen, apps[i - 1].name) == Some(apps[i - 1]));
        }
    }
    assert forall|name: Seq<char>| #[trigger] first_shown(now, name) is Some implies exists|i: int|
        0 <= i < longer.len() && (#[trigger] longer[i]).name == name by {
        if name == view.name {
            assert(longer[at].name == name);
        } else {
            let k = choose|k: int| 0 <= k < apps.len() && (#[trigger] apps[k]).name == name;
            let i = if k < at { k } else { k + 1 };
            assert(longer[i].name == name);
        }
    }
}

/// The applications that play audio, ordered by name.
pub fn list_audio_apps(globals: &[Global]) -> (apps: Vec<AudioApp>)
    ensures
        is_listing(globals@, app_views(apps@)),
{
    let mut apps: Vec<AudioApp> = Vec::new();
    for i in 0..globals.len()
        invariant
            is_listing(globals@.take(i as int), app_views(apps@)),
    {
        let ghost seen = globals@.take(i as int);
        let ghost now = globals@.take(i + 1);
        let ghost before = app_views(apps@);
        assert(now.drop_last() == seen);
        assert(now.last() == globals@[i as int]);
        if let Some(app) = app_shown_by(&globals[i]) {
            let ghost view = app@;
            let mut at: usize = 0;
            while at < apps.len() && text::stands_before(&apps[at].name, &app.name)
                invariant
                    at <= apps@.len(),
                    before == app_views(apps@),
                    view == app@,
                    forall|j: int| 0 <= j < at ==> precedes((#[trigger] before[j]).name, view.name),
                decreases apps@.len() - at,
            {
                assert(before[at as int].name == apps@[at as int].name@);
                at += 1;
            }
            if at < apps.len() && text::same(&apps[at].name, &app.name) {
                assert(before[at as int].name == view.name);
                assert(is_listing(now, before)) by {
                    lemma_known_name_changes_nothing(seen, now, before, view, at as int);
                }
            } else {
                apps.insert(at, app);
                assert(app_views(apps@) =~= before.insert(at as int, view));
                proof {
                    if at < before.len() {
                        assert(before[at as int].name != view.name);
                    }
                    lemma_new_name_is_inserted(seen, now, before, view, at as int);
                }
            }
        } else {
            assert(forall|name: Seq<char>| #[trigger]
                first_shown(now, name) == first_shown(seen, name));
        }
    }
    assert(globals@.take(globals@.len() as int) == globals@);
    apps
}

/// Whether each text stands before all that follow.
spec fn ascending(names: Seq<Seq<char>>) -> bool {
    forall|i: int, j: int|
        0 <= i < j < names.len() ==> precedes(#[trigger] names[i], #[trigger] names[j])
}

/// An ascending sequence is determined by its elements.
proof fn lemma_ascending_is_unique(a: Seq<Seq<char>>, b: Seq<Seq<char>>)
    requires
        ascending(a),
        ascending(b),
        forall|name: Seq<char>| #[trigger] a.contains(name) <==> b.contains(name),
    ensures
        a == b,
    decreases a.len(),
{
    if a.len() == 0 {
        if b.len() > 0 {
            assert(b.contains(b[0]));
            assert(a.contains(b[0]));
        }
        assert(a =~= b);
    } else {
        assert(a.contains(a.last()));
        assert(b.contains(a.last()));
        assert(b.contains(b.last()));
        assert(a.contains(b.last()));
        let i = choose|i: int| 0 <= i < b.len() && b[i] == a.last();
        let j = choose|j: int| 0 <= j < a.len() && a[j] == b.last();
        assert(a.last() == b.last()) by {
            if i < b.len() - 1 && j < a.len() - 1 {
                assert(precedes(b[i], b[b.len() - 1]));
                assert(precedes(a[j], a[a.len() - 1]));
                text::law_order_is_transitive(a.last(), b.last(), a.last());
                text::law_order_is_irreflexive(a.last());
            }
        }
        let (x, y) = (a.drop_last(), b.drop_last());
        assert forall|name: Seq<char>| #[trigger] x.contains(name) <==> y.contains(name) by {
            text::law_order_is_irreflexive(name);
            if x.contains(name) {
                let k = choose|k: int| 0 <= k < x.len() && x[k] == name;
                assert(a[k] == name && precedes(a[k], a[a.len() - 1]));
                assert(a.contains(name));
                let m = choose|m: int| 0 <= m < b.len() && b[m] == name;
                assert(y[m] == name);
            }
            if y.contains(name) {
                let k = choose|k: int| 0 <= k < y.len() && y[k] == name;
                assert(b[k] == name && precedes(b[k], b[b.len() - 1]));
                assert(b.contains(name));
                assert(a.contains(name));
                let m = choose|m: int| 0 <= m < a.len() && a[m] == name;
                assert(x[m] == name);
            }
        }
        lemma_ascending_is_unique(x, y);
        assert(a =~= x.push(a.last()));
        assert(b =~= y.push(b.last()));
    }
}

/// The announced objects determine the list of applications.
pub proof fn law_listing_is_determined(globals: Seq<Global>, a: Seq<AppView>, b: Seq<AppView>)
    requires
        is_listing(globals, a),
        is_listing(globals, b),
    ensures
        a == b,
{
    let x = a.map_values(|v: AppView| v.name);
    let y = b.map_values(|v: AppView| v.name);
    assert forall|name: Seq<char>| #[trigger] x.contains(name) <==> y.contains(name) by {
        if x.contains(name) {
            let i = choose|i: int| 0 <= i < x.len() && x[i] == name;
            assert(first_shown(globals, a[i].name) is Some);
            let j = choose|j: int| 0 <= j < b.len() && (#[trigger] b[j]).name == name;
            assert(y[j] == name);
        }
        if y.contains(name) {
            let i = choose|i: int| 0 <= i < y.len() && y[i] == name;
            assert(first_shown(globals, b[i].name) is Some);
            let j = choose|j: int| 0 <= j < a.len() && (#[trigger] a[j]).name == name;
            assert(x[j] == name);
        }
    }
    lemma_ascending_is_unique(x, y);
    assert(a.len() == x.len() == y.len() == b.len());
    assert forall|i: int| 0 <= i < a.len() implies a[i] == b[i] by {
        assert(x[i] == y[i]);
        assert(a[i].name == b[i].name);
        assert(first_shown(globals, a[i].name) == Some(a[i]));
        assert(first_shown(globals, b[i].name) == Some(b[i]));
    }
    assert(a =~= b);
}

/// No listed application lacks a name.
pub proof fn law_listed_names_are_not_empty(globals: Seq<Global>, apps: Seq<AppView>, i: int)
    requires
        is_listing(globals, apps),
        0 <= i < apps.len(),
    ensures
        apps[i].name.len() > 0,
{
    assert(first_shown(globals, apps[i].name) == Some(apps[i]));
    lemma_shown_has_name(globals, apps[i].name);
}

/// What is shown under a name has that name, and it is not empty.
proof fn lemma_shown_has_name(globals: Seq<Global>, name: Seq<char>)
    ensures
        first_shown(globals, name) matches Some(app) ==> app.name == name && name.len() > 0,
    decreases globals.len(),
{
    if globals.len() > 0 {
        lemma_shown_has_name(globals.drop_last(), name);
    }
}

/// The name under which a stream's application is listed selects that stream.
pub proof fn law_listed_name_selects_its_stream(global: Global)
    requires
        shown_app(global) is Some,
    ensures
        node_matches(global.props->0@, MatcherView::AppName(shown_app(global)->0.name)),
{
    let name = shown_app(global)->0.name;
    assert(property_names(global.props->0@, APPLICATION_NAME@, name));
}

/// Applications are told apart by the lower case form of their names alone.
pub proof fn law_matching_ignores_case(props: DictView, a: Seq<char>, b: Seq<char>)
    requires
        lowercase(a) == lowercase(b),
    ensures
        node_matches(props, MatcherView::AppName(a)) == node_matches(
            props,
            MatcherView::AppName(b),
        ),
{
}

/// A name in reverse domain notation is met by its last segment.
pub proof fn law_last_segment_matches(props: DictView, app: Seq<char>, value: Seq<char>)
    requires
        first_value(props, APPLICATION_NAME@) == Some(value) || first_value(
            props,
            APPLICATION_BINARY@,
        ) == Some(value) || first_value(props, NODE_NAME@) == Some(value),
        lowercase(value) == after_last_dot(lowercase(app)),
    ensures
        node_matches(props, MatcherView::AppName(app)),
{
    assert(property_names(props, APPLICATION_NAME@, app) || property_names(
        props,
        APPLICATION_BINARY@,
        app,
    ) || property_names(props, NODE_NAME@, app));
}

/// A capture whose application is known has a way to recognise its audio, and
/// it is the application's name unless the node has a link group.
pub proof fn law_known_app_has_matcher(props: Map<Seq<char>, Seq<char>>)
    requires
        captured_app(props) is Some,
    ensures
        session_matcher(props) is Some,
        session_matcher(props)->0 is AppName ==> session_matcher(props) == Some(
            MatcherView::AppName(captured_app(props)->0),
        ),
{
}

/// Whether object `i` is the first node that has the id `node_id` and
/// properties.
pub open spec fn first_node(globals: Seq<Global>, node_id: u32, i: int) -> bool {
    &&& 0 <= i < globals.len()
    &&& globals[i].type_ == crate::registry::ObjectType::Node
    &&& globals[i].props is Some
    &&& globals[i].id == node_id
    &&& forall|j: int|
        0 <= j < i ==> (#[trigger] globals[j]).type_ != crate::registry::ObjectType::Node
            || globals[j].props is None || globals[j].id != node_id
}

proof fn lemma_node_dict(globals: Seq<Global>, node_id: u32)
    ensures
        match node_dict(globals, node_id) {
            Some(dict) => exists|i: int| #[trigger]
                first_node(globals, node_id, i) && dict == globals[i].props->0@,
            None => forall|i: int| !#[trigger] first_node(globals, node_id, i),
        },
        forall|i: int| #[trigger]
            first_node(globals, node_id, i) ==> node_dict(globals, node_id) == Some(
                globals[i].props->0@,
            ),
    decreases globals.len(),
{
    if globals.len() > 0 {
        if globals[0].is_node() && globals[0].id == node_id {
            assert(first_node(globals, node_id, 0));
        } else {
            let rest = globals.drop_first();
            lemma_node_dict(rest, node_id);
            if node_dict(rest, node_id) is Some {
                let i = choose|i: int| #[trigger]
                    first_node(rest, node_id, i) && node_dict(rest, node_id)->0
                        == rest[i].props->0@;
                assert forall|j: int| 0 <= j < i + 1 implies (#[trigger] globals[j]).type_
                    != crate::registry::ObjectType::Node || globals[j].props is None
                    || globals[j].id != node_id by {
                    if j > 0 {
                        assert(rest[j - 1] == globals[j]);
                    }
                }
                assert(first_node(globals, node_id, i + 1));
            }
            assert forall|i: int| #[trigger] first_node(globals, node_id, i) implies node_dict(
                globals,
                node_id,
            ) == Some(globals[i].props->0@) by {
                assert(i > 0);
                assert forall|j: int| 0 <= j < i - 1 implies (#[trigger] rest[j]).type_
                    != crate::registry::ObjectType::Node || rest[j].props is None || rest[j].id
                    != node_id by {
                    assert(rest[j] == globals[j + 1]);
                }
                assert(first_node(rest, node_id, i - 1));
            }
        }
    }
}

/// The properties of a node are those of the first node with its id that has
/// any; there are none only where there is no such node.
pub proof fn law_first_node_is_queried(globals: &[Global], node_id: u32, props: Option<PropMap>)
    requires
        call_ensures(query_node_props, (globals, node_id), props),
    ensures
        props is Some <==> exists|i: int| #[trigger] first_node(globals@, node_id, i),
        forall|i: int| #[trigger]
            first_node(globals@, node_id, i) ==> props is Some && props->0@ == as_map(
                globals@[i].props->0@,
            ),
{
    lemma_node_dict(globals@, node_id);
}

/// The application that properties name is what must be put behind KWin's
/// prefix to get the media name.
proof fn lemma_captured_app(props: Map<Seq<char>, Seq<char>>)
    ensures
        captured_app(props) matches Some(app) ==> app.len() > 0 && props.contains_key(
            "media.name"@,
        ) && props["media.name"@] == "kwin-screencast-"@ + app,
        forall|app: Seq<char>|
            app.len() > 0 && props.contains_key("media.name"@) && props["media.name"@]
                == #[trigger] ("kwin-screencast-"@ + app) ==> captured_app(props) == Some(app),
{
    let prefix = "kwin-screencast-"@;
    let name = props["media.name"@];
    if captured_app(props) is Some {
        assert(name =~= name.take(prefix.len() as int) + name.skip(prefix.len() as int));
    }
    assert forall|app: Seq<char>|
        app.len() > 0 && props.contains_key("media.name"@) && name == #[trigger] (
        "kwin-screencast-"@ + app) implies captured_app(props) == Some(app) by {
        assert(name.take(prefix.len() as int) =~= prefix);
        assert(name.skip(prefix.len() as int) =~= app);
    }
}

/// The application whose window a node captures is told if and only if the
/// node's media name is KWin's prefix with a name behind it, and is that name.
pub proof fn law_app_stands_behind_the_prefix(
    globals: &[Global],
    video_node_id: u32,
    app: Option<String>,
    i: int,
)
    requires
        call_ensures(resolve_app_name, (globals, video_node_id), app),
    ensures
        (forall|j: int| !#[trigger] first_node(globals@, video_node_id, j)) ==> app is None,
        first_node(globals@, video_node_id, i) ==> {
            let props = as_map(globals@[i].props->0@);
            &&& app matches Some(app) ==> app@.len() > 0 && props.contains_key("media.name"@)
                && props["media.name"@] == "kwin-screencast-"@ + app@
            &&& forall|name: Seq<char>|
                name.len() > 0 && props.contains_key("media.name"@) && props["media.name"@]
                    == #[trigger] ("kwin-screencast-"@ + name) ==> app is Some && app->0@ == name
        },
{
    lemma_node_dict(globals@, video_node_id);
    if first_node(globals@, video_node_id, i) {
        lemma_captured_app(as_map(globals@[i].props->0@));
    }
}

/// The audio of a captured window is recognised by the node's link group if it
/// names one; else by the application behind KWin's prefix in its media name,
/// if there is one; else not at all.
pub proof fn law_link_group_goes_before_the_app(
    globals: &[Global],
    video_node_id: u32,
    matcher: Option<SessionMatcher>,
    i: int,
)
    requires
        call_ensures(resolve_session_matcher, (globals, video_node_id), matcher),
    ensures
        (forall|j: int| !#[trigger] first_node(globals@, video_node_id, j)) ==> matcher is None,
        first_node(globals@, video_node_id, i) ==> {
            let props = as_map(globals@[i].props->0@);
            if props.contains_key("node.link-group"@) && props["node.link-group"@].len() > 0 {
                &&& matcher matches Some(SessionMatcher::LinkGroup(group))
                &&& group@ == props["node.link-group"@]
            } else {
                &&& matcher is Some ==> matcher->0 is AppName
                &&& matcher matches Some(SessionMatcher::AppName(app)) ==> app@.len() > 0
                    && props.contains_key("media.name"@) && props["media.name"@]
                    == "kwin-screencast-"@ + app@
                &&& forall|name: Seq<char>|
                    name.len() > 0 && props.contains_key("media.name"@) && props["media.name"@]
                        == #[trigger] ("kwin-screencast-"@ + name) ==> matcher is Some
                        && matcher->0 is AppName && matcher->0->AppName_0@ == name
            }
        },
{
    lemma_node_dict(globals@, video_node_id);
    if first_node(globals@, video_node_id, i) {
        lemma_captured_app(as_map(globals@[i].props->0@));
        if let Some(found) = matcher {
            assert(found@ is AppName <==> found is AppName);
        }
    }
}

/// A name is that of an application if and only if it is the application's
/// name, or has no dot and stands behind a dot at the end of it.
pub proof fn law_names_match_whole_or_by_last_segment(target: &str, value: &str, r: bool)
    requires
        call_ensures(name_matches, (target, value), r),
    ensures
        r <==> value@ == target@ || (!value@.contains('.') && value@.len() < target@.len()
            && target@[target@.len() - value@.len() - 1] == '.' && target@.skip(
            target@.len() - value@.len(),
        ) == value@),
{
    lemma_last_segment_is(target@, value@);
}

/// What it takes to be the last segment of a text.
proof fn lemma_last_segment_is(s: Seq<char>, segment: Seq<char>)
    ensures
        segment == s || segment == after_last_dot(s) <==> segment == s || (!segment.contains('.')
            && segment.len() < s.len() && s[s.len() - segment.len() - 1] == '.' && s.skip(
            s.len() - segment.len(),
        ) == segment),
{
    let last = after_last_dot(s);
    text::lemma_after_last_dot(s);
    if segment == last && segment != s {
        if segment.len() == s.len() {
            assert(s.skip(0) =~= s);
        }
    }
    if !segment.contains('.') && segment.len() < s.len() && s[s.len() - segment.len() - 1] == '.'
        && s.skip(s.len() - segment.len()) == segment {
        let (x, y) = (s.len() - segment.len(), s.len() - last.len());
        if x < y {
            assert(s.skip(x)[y - 1 - x] == s[y - 1]);
            assert(segment.contains(segment[y - 1 - x]));
        } else if y < x {
            assert(s.skip(y)[x - 1 - y] == s[x - 1]);
        }
        assert(x == y);
    }
}

/// A stream belongs to a link group if and only if it names that group. It
/// belongs to an application if and only if one of its three names, in lower
/// case, is the application's in lower case, or the part of that behind its
/// last dot: a stream none of whose names is one of these two does not belong.
pub proof fn law_streams_match_by_name(props: &Dict, matcher: &SessionMatcher, r: bool)
    requires
        call_ensures(audio_node_matches, (props, matcher), r),
    ensures
        matcher matches SessionMatcher::LinkGroup(group) ==> (r <==> first_value(
            props@,
            "node.link-group"@,
        ) == Some(group@)),
        matcher matches SessionMatcher::AppName(app) ==> {
            let target = lowercase(app@);
            r <==> exists|key: Seq<char>|
                (key == "application.name"@ || key == "application.process.binary"@ || key
                    == "node.name"@) && #[trigger] first_value(props@, key) is Some && {
                    let value = lowercase(first_value(props@, key)->0);
                    value == target || (!value.contains('.') && value.len() < target.len()
                        && target[target.len() - value.len() - 1] == '.' && target.skip(
                        target.len() - value.len(),
                    ) == value)
                }
        },
{
    if let SessionMatcher::AppName(app) = matcher {
        let target = lowercase(app@);
        lemma_property_names(props@, "application.name"@, app@);
        lemma_property_names(props@, "application.process.binary"@, app@);
        lemma_property_names(props@, "node.name"@, app@);
    }
}

/// What it takes for a property to name an application.
proof fn lemma_property_names(props: DictView, key: Seq<char>, app: Seq<char>)
    ensures
        property_names(props, key, app) <==> first_value(props, key) is Some && {
            let target = lowercase(app);
            let value = lowercase(first_value(props, key)->0);
            value == target || (!value.contains('.') && value.len() < target.len() && target[
            target.len() - value.len() - 1] == '.' && target.skip(target.len() - value.len())
                == value)
        },
{
    if first_value(props, key) is Some {
        lemma_last_segment_is(lowercase(app), lowercase(first_value(props, key)->0));
    }
}

/// Whether object `j` plays audio for an application called `name`, and is the
/// first one that does.
pub open spec fn first_to_play(globals: Seq<Global>, name: Seq<char>, j: int) -> bool {
    &&& 0 <= j < globals.len()
    &&& globals[j].plays_audio()
    &&& first_value(globals[j].props->0@, "application.name"@) == Some(name)
    &&& forall|k: int|
        0 <= k < j && (#[trigger] globals[k]).plays_audio() ==> first_value(
            globals[k].props->0@,
            "application.name"@,
        ) != Some(name)
}

proof fn lemma_first_shown(globals: Seq<Global>, name: Seq<char>)
    requires
        name.len() > 0,
    ensures
        match first_shown(globals, name) {
            Some(app) => exists|j: int| #[trigger]
                first_to_play(globals, name, j) && shown_app(globals[j]) == Some(app),
            None => forall|j: int| !#[trigger] first_to_play(globals, name, j),
        },
        forall|j: int| #[trigger]
            first_to_play(globals, name, j) ==> first_shown(globals, name) == shown_app(
                globals[j],
            ),
    decreases globals.len(),
{
    if globals.len() > 0 {
        let (rest, n) = (globals.drop_last(), globals.len() - 1);
        lemma_first_shown(rest, name);
        if first_shown(rest, name) is Some {
            let j = choose|j: int| #[trigger]
                first_to_play(rest, name, j) && shown_app(rest[j]) == first_shown(rest, name);
            assert forall|k: int|
                0 <= k < j && (#[trigger] globals[k]).plays_audio() implies first_value(
                globals[k].props->0@,
                "application.name"@,
            ) != Some(name) by {
                assert(rest[k] == globals[k]);
            }
            assert(first_to_play(globals, name, j));
        } else if first_shown(globals, name) is Some {
            assert forall|k: int|
                0 <= k < n && (#[trigger] globals[k]).plays_audio() implies first_value(
                globals[k].props->0@,
                "application.name"@,
            ) != Some(name) by {
                if first_value(globals[k].props->0@, "application.name"@) == Some(name) {
                    assert(rest[k] == globals[k]);
                    lemma_some_plays_first(rest, name, k);
                }
            }
            assert(first_to_play(globals, name, n));
        }
        assert forall|j: int| #[trigger] first_to_play(globals, name, j) implies first_shown(
            globals,
            name,
        ) == shown_app(globals[j]) by {
            if j < n {
                assert forall|k: int|
                    0 <= k < j && (#[trigger] rest[k]).plays_audio() implies first_value(
                    rest[k].props->0@,
                    "application.name"@,
                ) != Some(name) by {
                    assert(rest[k] == globals[k]);
                }
                assert(first_to_play(rest, name, j));
            } else if first_shown(rest, name) is Some {
                let i = choose|i: int| #[trigger]
                    first_to_play(rest, name, i) && shown_app(rest[i]) == first_shown(rest, name);
                assert(globals[i] == rest[i]);
            }
        }
    }
}

/// Where some object plays audio for an application, one is the first to.
proof fn lemma_some_plays_first(globals: Seq<Global>, name: Seq<char>, k: int)
    requires
        0 <= k < globals.len(),
        globals[k].plays_audio(),
        first_value(globals[k].props->0@, "application.name"@) == Some(name),
    ensures
        exists|j: int| #[trigger] first_to_play(globals, name, j),
    decreases k,
{
    if exists|i: int|
        0 <= i < k && (#[trigger] globals[i]).plays_audio() && first_value(
            globals[i].props->0@,
            "application.name"@,
        ) == Some(name) {
        let i = choose|i: int|
            0 <= i < k && (#[trigger] globals[i]).plays_audio() && first_value(
                globals[i].props->0@,
                "application.name"@,
            ) == Some(name);
        lemma_some_plays_first(globals, name, i);
    } else {
        assert(first_to_play(globals, name, k));
    }
}

/// The list holds each application that plays audio under a name, and nothing
/// else, once and in order, with the binary that the first object to play
/// audio under the name gives, or none.
pub proof fn law_all_audio_apps_are_listed(globals: &[Global], apps: Vec<AudioApp>)
    requires
        call_ensures(list_audio_apps, (globals,), apps),
    ensures
        forall|a: int, b: int|
            0 <= a < b < apps@.len() ==> precedes(
                (#[trigger] apps@[a]).name@,
                (#[trigger] apps@[b]).name@,
            ),
        forall|a: int|
            0 <= a < apps@.len() ==> (#[trigger] apps@[a]).name@.len() > 0 && exists|j: int|
                #[trigger] first_to_play(globals@, apps@[a].name@, j) && apps@[a].binary@
                    == match first_value(
                    globals@[j].props->0@,
                    "application.process.binary"@,
                ) {
                    Some(binary) => binary,
                    None => Seq::empty(),
                },
        forall|j: int|
            0 <= j < globals@.len() && (#[trigger] globals@[j]).plays_audio() && (first_value(
                globals@[j].props->0@,
                "application.name"@,
            ) matches Some(name) && name.len() > 0) ==> exists|a: int|
                0 <= a < apps@.len() && Some((#[trigger] apps@[a]).name@) == first_value(
                    globals@[j].props->0@,
                    "application.name"@,
                ),
{
    let views = app_views(apps@);
    assert(is_listing(globals@, views));
    assert(forall|a: int| 0 <= a < apps@.len() ==> #[trigger] views[a] == apps@[a]@);
    assert forall|a: int, b: int| 0 <= a < b < apps@.len() implies precedes(
        (#[trigger] apps@[a]).name@,
        (#[trigger] apps@[b]).name@,
    ) by {
        assert(precedes(views[a].name, views[b].name));
    }
    assert forall|a: int| 0 <= a < apps@.len() implies (#[trigger] apps@[a]).name@.len() > 0
        && exists|j: int| #[trigger]
        first_to_play(globals@, apps@[a].name@, j) && apps@[a].binary@ == match first_value(
            globals@[j].props->0@,
            "application.process.binary"@,
        ) {
            Some(binary) => binary,
            None => Seq::empty(),
        } by {
        let name = apps@[a].name@;
        assert(views[a].name == name);
        law_listed_names_are_not_empty(globals@, views, a);
        assert(first_shown(globals@, name) == Some(views[a]));
        lemma_first_shown(globals@, name);
        let j = choose|j: int| #[trigger]
            first_to_play(globals@, name, j) && shown_app(globals@[j]) == Some(views[a]);
        assert(first_to_play(globals@, name, j));
    }
    assert forall|j: int|
        0 <= j < globals@.len() && (#[trigger] globals@[j]).plays_audio() && (first_value(
            globals@[j].props->0@,
            "application.name"@,
        ) matches Some(name) && name.len() > 0) implies exists|a: int|
        0 <= a < apps@.len() && Some((#[trigger] apps@[a]).name@) == first_value(
            globals@[j].props->0@,
            "application.name"@,
        ) by {
        let name = first_value(globals@[j].props->0@, "application.name"@)->0;
        lemma_some_plays_first(globals@, name, j);
        lemma_first_shown(globals@, name);
        assert(first_shown(globals@, name) is Some);
        let a = choose|a: int| 0 <= a < views.len() && (#[trigger] views[a]).name == name;
        assert(apps@[a].name@ == name);
    }
}

} // verus!

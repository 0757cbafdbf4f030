//! Capture of one application's audio.
//!
//! The registry is watched for streams of the application. Each one that
//! appears is captured with a fresh stream, in place of the one before:
//! streams do not reliably produce audio after being reconnected to another
//! node.
use vstd::prelude::*;

use crate::audio::resolve;
use crate::audio::resolve::{MatcherView, SessionMatcher};
use crate::registry::Global;
use crate::release::{release, Released};

verus! {

/// The capture of one application: what it looks for, and the stream it runs,
/// of type `L`. Dropping a stream disconnects it.
pub struct AppCapture<L> {
    matcher: Option<SessionMatcher>,
    connected_to: Option<u32>,
    live: Option<L>,
}

/// What an application capture holds.
#[verifier::ext_equal]
pub struct AppCaptureView<L> {
    /// How the application's nodes are recognised; `None` takes any node.
    pub matcher: Option<MatcherView>,
    /// The node that was connected last and has not gone since.
    pub connected_to: Option<u32>,
    /// The stream that runs.
    pub live: Option<L>,
}

impl<L> View for AppCapture<L> {
    type V = AppCaptureView<L>;

    closed spec fn view(&self) -> AppCaptureView<L> {
        AppCaptureView {
            matcher: match self.matcher {
                Some(matcher) => Some(matcher@),
                None => None,
            },
            connected_to: self.connected_to,
            live: self.live,
        }
    }
}

/// Whether an announced object is an audio stream that is looked for.
pub open spec fn wanted(matcher: Option<MatcherView>, global: Global) -> bool {
    global.plays_audio() && match matcher {
        Some(matcher) => resolve::node_matches(global.props->0@, matcher),
        None => true,
    }
}

impl<L> AppCaptureView<L> {
    /// A capture that runs nothing yet.
    pub open spec fn idle(matcher: Option<MatcherView>) -> AppCaptureView<L> {
        AppCaptureView { matcher, connected_to: None, live: None }
    }

    /// A stream runs only while a node is connected.
    pub open spec fn consistent(self) -> bool {
        self.live is Some ==> self.connected_to is Some
    }

    /// The capture after the attempt to connect to `node_id` gave `created`.
    pub open spec fn switched<E>(self, node_id: u32, created: Result<L, E>) -> AppCaptureView<L> {
        match created {
            Ok(stream) => AppCaptureView {
                matcher: self.matcher,
                connected_to: Some(node_id),
                live: Some(stream),
            },
            Err(_) => AppCaptureView {
                matcher: self.matcher,
                connected_to: self.connected_to,
                live: None,
            },
        }
    }

    /// The capture after the node `id` has gone.
    pub open spec fn without(self, id: u32) -> AppCaptureView<L> {
        if self.connected_to == Some(id) {
            AppCaptureView { matcher: self.matcher, connected_to: None, live: None }
        } else {
            self
        }
    }
}

impl<L> AppCapture<L> {
    /// A capture that runs nothing yet.
    pub fn new(matcher: Option<SessionMatcher>) -> (capture: AppCapture<L>)
        ensures
            capture@ == AppCaptureView::<L>::idle(
                match matcher {
                    Some(matcher) => Some(matcher@),
                    None => None,
                },
            ),
            capture@.consistent(),
    {
        AppCapture { matcher, connected_to: None, live: None }
    }

    /// A capture of the application whose window the video node captures, as
    /// far as the registry tells; without that it takes any audio.
    pub fn from_video_node(globals: &[Global], video_node_id: u32) -> (capture: AppCapture<L>)
        ensures
            capture@ == AppCaptureView::<L>::idle(
                match resolve::node_dict(globals@, video_node_id) {
                    Some(dict) => resolve::session_matcher(crate::registry::as_map(dict)),
                    None => None,
                },
            ),
            capture@.consistent(),
    {
        AppCapture::new(resolve::resolve_session_matcher(globals, video_node_id))
    }

    /// A capture of the application with the given name.
    pub fn by_name(app_name: String) -> (capture: AppCapture<L>)
        ensures
            capture@ == AppCaptureView::<L>::idle(Some(MatcherView::AppName(app_name@))),
            capture@.consistent(),
    {
        AppCapture::new(Some(SessionMatcher::AppName(app_name)))
    }

    /// How the application's nodes are recognised; `None` takes any node.
    pub fn matcher(&self) -> (matcher: Option<&SessionMatcher>)
        ensures
            matcher is Some <==> self@.matcher is Some,
            matcher matches Some(matcher) ==> self@.matcher == Some(matcher@),
    {
        self.matcher.as_ref()
    }

    /// Whether an announced object is an audio stream that is looked for.
    pub fn wants(&self, global: &Global) -> (r: bool)
        ensures
            r == wanted(self@.matcher, *global),
    {
        match global.audio_props() {
            Some(props) => match &self.matcher {
                Some(matcher) => resolve::audio_node_matches(props, matcher),
                None => true,
            },
            None => false,
        }
    }

    /// An object was announced. If it is looked for, drops the samples of the
    /// node connected before, with `remove_source`, and the stream that runs,
    /// and only then connects to the new node with `create_stream`. Returns
    /// what came of that, or `None` for an object that is not looked for,
    /// which is met with nothing.
    pub fn on_global<E, R: FnOnce(u32), C: FnOnce(u32, Released<Option<L>>) -> Result<L, E>>(
        &mut self,
        global: &Global,
        remove_source: R,
        create_stream: C,
    ) -> (outcome: Option<Result<(), E>>)
        requires
            wanted(old(self)@.matcher, *global) && old(self)@.connected_to is Some
                ==> call_requires(remove_source, (old(self)@.connected_to->0,)),
            wanted(old(self)@.matcher, *global) && (old(self)@.connected_to is Some
                ==> call_ensures(remove_source, (old(self)@.connected_to->0,), ())) ==> forall|
                released: Released<Option<L>>,
            |
                released@ == old(self)@.live ==> #[trigger] call_requires(
                    create_stream,
                    (global.id, released),
                ),
        ensures
            outcome is Some <==> wanted(old(self)@.matcher, *global),
            outcome is None ==> final(self)@ == old(self)@,
            outcome is Some && old(self)@.connected_to is Some ==> call_ensures(
                remove_source,
                (old(self)@.connected_to->0,),
                (),
            ),
            outcome matches Some(result) ==> exists|
                released: Released<Option<L>>,
                created: Result<L, E>,
            | #[trigger]
                call_ensures(create_stream, (global.id, released), created) && released@ == old(self)@.live && final(self)@ == old(self)@.switched(global.id, created)
                    && match created {
                    Ok(_) => result == Ok::<(), E>(()),
                    Err(error) => result == Err::<(), E>(error),
                },
            old(self)@.consistent() ==> final(self)@.consistent(),
    {
        if !self.wants(global) {
            return None;
        }
        if let Some(id) = self.connected_to {
            remove_source(id);
        }
        let released = release(self.live.take());
        match create_stream(global.id, released) {
            Ok(stream) => {
                self.live = Some(stream);
                self.connected_to = Some(global.id);
                Some(Ok(()))
            },
            Err(error) => Some(Err(error)),
        }
    }

    /// An object has gone. If it is the connected node, drops the stream and
    /// then, with `remove_source`, its samples: a stream that still runs could
    /// bring more. Returns whether it was.
    pub fn on_global_remove<R: FnOnce(u32, Released<Option<L>>)>(
        &mut self,
        id: u32,
        remove_source: R,
    ) -> (was: bool)
        requires
            old(self)@.connected_to == Some(id) ==> forall|released: Released<Option<L>>|
                released@ == old(self)@.live ==> #[trigger] call_requires(
                    remove_source,
                    (id, released),
                ),
        ensures
            was == (old(self)@.connected_to == Some(id)),
            final(self)@ == old(self)@.without(id),
            was ==> exists|released: Released<Option<L>>|
                released@ == old(self)@.live && #[trigger] call_ensures(
                    remove_source,
                    (id, released),
                    (),
                ),
            old(self)@.consistent() ==> final(self)@.consistent(),
    {
        match self.connected_to {
            Some(connected) => if connected == id {
                let released = release(self.live.take());
                self.connected_to = None;
                remove_source(id, released);
                true
            } else {
                false
            },
            None => false,
        }
    }
}

/// Once the connected node has gone, nothing runs until another one is
/// connected.
pub proof fn law_gone_node_is_not_captured<L>(capture: AppCaptureView<L>, id: u32)
    requires
        capture.consistent(),
    ensures
        capture.without(id).connected_to != Some(id),
        capture.connected_to == Some(id) ==> capture.without(id).live is None,
        capture.without(id).without(id) == capture.without(id),
{
}

/// Connecting leaves at most the new node's stream running.
pub proof fn law_only_the_new_node_runs<L, E>(
    capture: AppCaptureView<L>,
    node_id: u32,
    created: Result<L, E>,
)
    ensures
        capture.switched(node_id, created).live == match created {
            Ok(stream) => Some(stream),
            Err(_) => None,
        },
        created is Ok ==> capture.switched(node_id, created).connected_to == Some(node_id),
        created is Err ==> capture.switched(node_id, created).connected_to
            == capture.connected_to,
{
}

/// An object is looked for if and only if it plays audio and, where there is a
/// way to recognise the application, is recognised.
pub proof fn law_recognised_streams_are_wanted<L>(
    capture: &AppCapture<L>,
    global: &Global,
    r: bool,
)
    requires
        call_ensures(AppCapture::<L>::wants, (capture, global), r),
    ensures
        r <==> global.plays_audio() && (capture@.matcher matches Some(matcher)
            ==> resolve::node_matches(global.props->0@, matcher)),
{
}

/// A capture starts with nothing running, and recognises the application in
/// the way it was given, in the way its video node tells, or by its name.
pub proof fn law_capture_starts_idle<L>(
    matcher: Option<SessionMatcher>,
    capture: AppCapture<L>,
    globals: &[Global],
    video_node_id: u32,
    resolved: Option<SessionMatcher>,
    of_window: AppCapture<L>,
    app_name: String,
    by_name: AppCapture<L>,
)
    requires
        call_ensures(AppCapture::<L>::new, (matcher,), capture),
        call_ensures(resolve::resolve_session_matcher, (globals, video_node_id), resolved),
        call_ensures(AppCapture::<L>::from_video_node, (globals, video_node_id), of_window),
        call_ensures(AppCapture::<L>::by_name, (app_name,), by_name),
    ensures
        capture@.live is None && capture@.connected_to is None,
        capture@.matcher is Some <==> matcher is Some,
        matcher is Some ==> capture@.matcher == Some(matcher->0@),
        of_window@.live is None && of_window@.connected_to is None,
        of_window@.matcher is Some <==> resolved is Some,
        resolved is Some ==> of_window@.matcher == Some(resolved->0@),
        by_name@.live is None && by_name@.connected_to is None,
        by_name@.matcher == Some(MatcherView::AppName(app_name@)),
{
}

/// What an announced object does: one that is not looked for changes nothing.
/// One that is has the samples of the node before removed, and is connected
/// to; if that fails, nothing runs, and the failure is told.
pub proof fn law_wanted_stream_takes_over<
    L,
    E,
    R: FnOnce(u32),
    C: FnOnce(u32, Released<Option<L>>) -> Result<L, E>,
>(
    capture: &mut AppCapture<L>,
    global: &Global,
    remove_source: R,
    create_stream: C,
    outcome: Option<Result<(), E>>,
)
    requires
        call_ensures(
            AppCapture::<L>::on_global::<E, R, C>,
            (capture, global, remove_source, create_stream),
            outcome,
        ),
    ensures
        outcome is Some <==> global.plays_audio() && (old(capture)@.matcher matches Some(matcher)
            ==> resolve::node_matches(global.props->0@, matcher)),
        final(capture)@.matcher == old(capture)@.matcher,
        outcome is None ==> final(capture)@.live == old(capture)@.live
            && final(capture)@.connected_to == old(capture)@.connected_to,
        outcome is Some && old(capture)@.connected_to is Some ==> call_ensures(
            remove_source,
            (old(capture)@.connected_to->0,),
            (),
        ),
        outcome matches Some(result) ==> exists|
            released: Released<Option<L>>,
            created: Result<L, E>,
        | #[trigger]
            call_ensures(create_stream, (global.id, released), created) && match created {
                Ok(stream) => {
                    &&& result is Ok
                    &&& final(capture)@.live == Some(stream)
                    &&& final(capture)@.connected_to == Some(global.id)
                },
                Err(error) => {
                    &&& result == Err::<(), E>(error)
                    &&& final(capture)@.live is None
                    &&& final(capture)@.connected_to == old(capture)@.connected_to
                },
            },
{
}

/// What the going of an object does: only that of the connected node changes
/// anything, and leaves nothing running and nothing connected.
pub proof fn law_only_the_connected_node_ends_the_capture<
    L,
    R: FnOnce(u32, Released<Option<L>>),
>(capture: &mut AppCapture<L>, id: u32, remove_source: R, was: bool)
    requires
        call_ensures(
            AppCapture::<L>::on_global_remove::<R>,
            (capture, id, remove_source),
            was,
        ),
    ensures
        was <==> old(capture)@.connected_to == Some(id),
        final(capture)@.matcher == old(capture)@.matcher,
        was ==> final(capture)@.live is None && final(capture)@.connected_to is None,
        !was ==> final(capture)@.live == old(capture)@.live && final(capture)@.connected_to
            == old(capture)@.connected_to,
        was ==> exists|released: Released<Option<L>>| #[trigger]
            call_ensures(remove_source, (id, released), ()) && released@ == old(capture)@.live,
{
}

} // verus!

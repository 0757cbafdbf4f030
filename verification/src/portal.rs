//! The conversation with the desktop portal that lets the user pick what to
//! capture.
//!
//! The portal's session is kept for as long as the capture runs. Where a
//! request leads to no capture, its session is closed: a session left behind
//! keeps the desktop's screen-share indicator on.
use vstd::prelude::*;

verus! {

/// A stream that the user picked.
#[derive(Debug, Clone, Copy, PartialEq, Eq, Structural)]
pub struct StreamInfo {
    pub node_id: u32,
    /// 1 = monitor, 2 = window, 0 = anything else.
    pub source_type: u32,
    pub width: i32,
    pub height: i32,
}

/// The kind of a source, as the portal tells it.
#[derive(Debug, Clone, Copy, PartialEq, Eq, Structural)]
pub enum SourceKind {
    Monitor,
    Window,
    Virtual,
}

/// A stream as the portal describes it.
#[derive(Debug, Clone, Copy)]
pub struct StreamReply {
    pub node_id: u32,
    pub source: Option<SourceKind>,
    pub size: Option<(i32, i32)>,
}

/// The kinds of sources that the user may pick from.
#[derive(Debug, Clone, Copy, PartialEq, Eq, Structural)]
pub struct SourceSelection {
    pub monitor: bool,
    pub window: bool,
}

/// How the pointer appears in what is captured.
#[derive(Debug, Clone, Copy, PartialEq, Eq, Structural)]
pub enum CursorMode {
    Hidden,
    /// It is part of the picture.
    Embedded,
    Metadata,
}

/// For how long the portal remembers what the user allowed.
#[derive(Debug, Clone, Copy, PartialEq, Eq, Structural)]
pub enum PersistMode {
    DoNot,
    Application,
    ExplicitlyRevoked,
}

/// What the user is asked to pick.
#[derive(Debug, Clone, Copy, PartialEq, Eq)]
pub struct SourceRequest {
    pub sources: SourceSelection,
    /// Whether more than one source may be picked.
    pub multiple: bool,
    pub cursor: CursorMode,
    /// What the portal gave for an earlier pick, to repeat it without asking.
    pub restore_token: Option<&'static str>,
    pub persist: PersistMode,
}

/// What a request asks for next.
#[derive(Debug, Clone, Copy, PartialEq, Eq)]
pub enum PortalAction {
    Connect,
    CreateSession,
    SelectSources(SourceRequest),
    Start,
    OpenRemote,
    CloseSession,
    /// Nothing more: the outcome is there.
    Finish,
}

/// What came of the action.
#[derive(Debug)]
pub enum PortalEvent<E> {
    Succeeded,
    /// The user picked; the answer to `Start`.
    Responded(Vec<StreamReply>),
    /// The user cancelled; the answer to `Start`.
    Cancelled,
    Failed(E),
}

/// What a request comes to.
#[derive(Debug)]
pub enum PortalOutcome<E> {
    /// The streams that were picked. The session stays open.
    Opened(Vec<StreamInfo>),
    /// Nothing was picked.
    Cancelled,
    Failed(E),
}

/// A request, at the action it waits for.
#[derive(Debug)]
pub enum PortalRequest<E> {
    Connecting(SourceSelection),
    CreatingSession(SourceSelection),
    SelectingSources(SourceSelection),
    Starting,
    OpeningRemote(Vec<StreamInfo>),
    Closing(PortalOutcome<E>),
    Finished(PortalOutcome<E>),
}

/// What an event tells.
pub enum EventView<E> {
    Succeeded,
    Responded(Seq<StreamReply>),
    Cancelled,
    Failed(E),
}

/// What an outcome tells.
pub enum OutcomeView<E> {
    Opened(Seq<StreamInfo>),
    Cancelled,
    Failed(E),
}

/// What a request holds.
pub enum RequestView<E> {
    Connecting(SourceSelection),
    CreatingSession(SourceSelection),
    SelectingSources(SourceSelection),
    Starting,
    OpeningRemote(Seq<StreamInfo>),
    Closing(OutcomeView<E>),
    Finished(OutcomeView<E>),
}

impl<E> View for PortalEvent<E> {
    type V = EventView<E>;

    open spec fn view(&self) -> EventView<E> {
        match *self {
            PortalEvent::Succeeded => EventView::Succeeded,
            PortalEvent::Responded(streams) => EventView::Responded(streams@),
            PortalEvent::Cancelled => EventView::Cancelled,
            PortalEvent::Failed(error) => EventView::Failed(error),
        }
    }
}

impl<E> View for PortalOutcome<E> {
    type V = OutcomeView<E>;

    open spec fn view(&self) -> OutcomeView<E> {
        match *self {
            PortalOutcome::Opened(streams) => OutcomeView::Opened(streams@),
            PortalOutcome::Cancelled => OutcomeView::Cancelled,
            PortalOutcome::Failed(error) => OutcomeView::Failed(error),
        }
    }
}

impl<E> View for PortalRequest<E> {
    type V = RequestView<E>;

    open spec fn view(&self) -> RequestView<E> {
        match *self {
            PortalRequest::Connecting(sources) => RequestView::Connecting(sources),
            PortalRequest::CreatingSession(sources) => RequestView::CreatingSession(sources),
            PortalRequest::SelectingSources(sources) => RequestView::SelectingSources(sources),
            PortalRequest::Starting => RequestView::Starting,
            PortalRequest::OpeningRemote(streams) => RequestView::OpeningRemote(streams@),
            PortalRequest::Closing(outcome) => RequestView::Closing(outcome@),
            PortalRequest::Finished(outcome) => RequestView::Finished(outcome@),
        }
    }
}

/// The kinds of sources that `source_types` stands for: 1 monitors, 2
/// windows, anything else both.
pub open spec fn selection(source_types: u32) -> SourceSelection {
    SourceSelection { monitor: source_types != 2, window: source_types != 1 }
}

/// What the user is asked to pick from `sources`: one of them, with the
/// pointer in the picture, without repeating an earlier pick, and without
/// being remembered for a later one.
pub open spec fn source_request(sources: SourceSelection) -> SourceRequest {
    SourceRequest {
        sources,
        multiple: false,
        cursor: CursorMode::Embedded,
        restore_token: None,
        persist: PersistMode::DoNot,
    }
}

/// A picked stream in the terms of this crate.
pub open spec fn stream_info(reply: StreamReply) -> StreamInfo {
    StreamInfo {
        node_id: reply.node_id,
        source_type: match reply.source {
            Some(SourceKind::Monitor) => 1,
            Some(SourceKind::Window) => 2,
            _ => 0,
        },
        width: match reply.size {
            Some((width, _)) => width,
            None => 0,
        },
        height: match reply.size {
            Some((_, height)) => height,
            None => 0,
        },
    }
}

/// Picked streams in the terms of this crate.
pub open spec fn stream_infos(replies: Seq<StreamReply>) -> Seq<StreamInfo> {
    replies.map_values(|reply: StreamReply| stream_info(reply))
}

impl<E> RequestView<E> {
    /// The request after `event`. An event that is no answer to the action
    /// waited for changes nothing.
    pub open spec fn next(self, event: EventView<E>) -> RequestView<E> {
        match (self, event) {
            (RequestView::Connecting(s), EventView::Succeeded) => RequestView::CreatingSession(s),
            (RequestView::Connecting(_), EventView::Failed(e)) => RequestView::Finished(
                OutcomeView::Failed(e),
            ),
            (RequestView::CreatingSession(s), EventView::Succeeded) => {
                RequestView::SelectingSources(s)
            },
            (RequestView::CreatingSession(_), EventView::Failed(e)) => RequestView::Finished(
                OutcomeView::Failed(e),
            ),
            (RequestView::SelectingSources(_), EventView::Succeeded) => RequestView::Starting,
            (RequestView::SelectingSources(_), EventView::Failed(e)) => RequestView::Closing(
                OutcomeView::Failed(e),
            ),
            (RequestView::Starting, EventView::Responded(replies)) => if replies.len() == 0 {
                RequestView::Closing(OutcomeView::Cancelled)
            } else {
                RequestView::OpeningRemote(stream_infos(replies))
            },
            (RequestView::Starting, EventView::Cancelled) => RequestView::Closing(
                OutcomeView::Cancelled,
            ),
            (RequestView::Starting, EventView::Failed(e)) => RequestView::Closing(
                OutcomeView::Failed(e),
            ),
            (RequestView::OpeningRemote(streams), EventView::Succeeded) => {
                RequestView::Finished(OutcomeView::Opened(streams))
            },
            (RequestView::OpeningRemote(_), EventView::Failed(e)) => RequestView::Closing(
                OutcomeView::Failed(e),
            ),
            // The session is given up in any case.
            (RequestView::Closing(outcome), EventView::Succeeded | EventView::Failed(_)) => {
                RequestView::Finished(outcome)
            },
            _ => self,
        }
    }

    /// What the request asks for.
    pub open spec fn action(self) -> PortalAction {
        match self {
            RequestView::Connecting(_) => PortalAction::Connect,
            RequestView::CreatingSession(_) => PortalAction::CreateSession,
            RequestView::SelectingSources(sources) => PortalAction::SelectSources(
                source_request(sources),
            ),
            RequestView::Starting => PortalAction::Start,
            RequestView::OpeningRemote(_) => PortalAction::OpenRemote,
            RequestView::Closing(_) => PortalAction::CloseSession,
            RequestView::Finished(_) => PortalAction::Finish,
        }
    }
}

/// The kinds of sources that `source_types` stands for.
pub fn requested_sources(source_types: u32) -> (sources: SourceSelection)
    ensures
        sources == selection(source_types),
{
    match source_types {
        1 => SourceSelection { monitor: true, window: false },
        2 => SourceSelection { monitor: false, window: true },
        _ => SourceSelection { monitor: true, window: true },
    }
}

/// Picked streams in the terms of this crate.
fn convert_streams(replies: &Vec<StreamReply>) -> (streams: Vec<StreamInfo>)
    ensures
        streams@ == stream_infos(replies@),
{
    let mut streams: Vec<StreamInfo> = Vec::new();
    for i in 0..replies.len()
        invariant
            streams@ == stream_infos(replies@).take(i as int),
    {
        let reply = replies[i];
        let source_type: u32 = match reply.source {
            Some(SourceKind::Monitor) => 1,
            Some(SourceKind::Window) => 2,
            _ => 0,
        };
        let (width, height): (i32, i32) = match reply.size {
            Some(size) => size,
            None => (0, 0),
        };
        streams.push(StreamInfo { node_id: reply.node_id, source_type, width, height });
    }
    streams
}

impl<E> PortalRequest<E> {
    /// A request to pick from the sources that `source_types` stands for.
    pub fn new(source_types: u32) -> (request: PortalRequest<E>)
        ensures
            request@ == RequestView::<E>::Connecting(selection(source_types)),
    {
        PortalRequest::Connecting(requested_sources(source_types))
    }

    /// What the request asks for.
    pub fn action(&self) -> (action: PortalAction)
        ensures
            action == self@.action(),
    {
        match self {
            PortalRequest::Connecting(_) => PortalAction::Connect,
            PortalRequest::CreatingSession(_) => PortalAction::CreateSession,
            PortalRequest::SelectingSources(sources) => PortalAction::SelectSources(
                SourceRequest {
                    sources: *sources,
                    multiple: false,
                    cursor: CursorMode::Embedded,
                    restore_token: None,
                    persist: PersistMode::DoNot,
                },
            ),
            PortalRequest::Starting => PortalAction::Start,
            PortalRequest::OpeningRemote(_) => PortalAction::OpenRemote,
            PortalRequest::Closing(_) => PortalAction::CloseSession,
            PortalRequest::Finished(_) => PortalAction::Finish,
        }
    }

    /// The request after `event`.
    pub fn step(self, event: PortalEvent<E>) -> (next: PortalRequest<E>)
        ensures
            next@ == self@.next(event@),
    {
        match (self, event) {
            (PortalRequest::Connecting(sources), PortalEvent::Succeeded) => {
                PortalRequest::CreatingSession(sources)
            },
            (PortalRequest::Connecting(_), PortalEvent::Failed(error)) => {
                PortalRequest::Finished(PortalOutcome::Failed(error))
            },
            (PortalRequest::CreatingSession(sources), PortalEvent::Succeeded) => {
                PortalRequest::SelectingSources(sources)
            },
            (PortalRequest::CreatingSession(_), PortalEvent::Failed(error)) => {
                PortalRequest::Finished(PortalOutcome::Failed(error))
            },
            (PortalRequest::SelectingSources(_), PortalEvent::Succeeded) => {
                PortalRequest::Starting
            },
            (PortalRequest::SelectingSources(_), PortalEvent::Failed(error)) => {
                PortalRequest::Closing(PortalOutcome::Failed(error))
            },
            (PortalRequest::Starting, PortalEvent::Responded(replies)) => {
                if replies.len() == 0 {
                    PortalRequest::Closing(PortalOutcome::Cancelled)
                } else {
                    PortalRequest::OpeningRemote(convert_streams(&replies))
                }
            },
            (PortalRequest::Starting, PortalEvent::Cancelled) => {
                PortalRequest::Closing(PortalOutcome::Cancelled)
            },
            (PortalRequest::Starting, PortalEvent::Failed(error)) => {
                PortalRequest::Closing(PortalOutcome::Failed(error))
            },
            (PortalRequest::OpeningRemote(streams), PortalEvent::Succeeded) => {
                PortalRequest::Finished(PortalOutcome::Opened(streams))
            },
            (PortalRequest::OpeningRemote(_), PortalEvent::Failed(error)) => {
                PortalRequest::Closing(PortalOutcome::Failed(error))
            },
            (PortalRequest::Closing(outcome), PortalEvent::Succeeded) => {
                PortalRequest::Finished(outcome)
            },
            (PortalRequest::Closing(outcome), PortalEvent::Failed(_)) => {
                PortalRequest::Finished(outcome)
            },
            (request, _) => request,
        }
    }
}

/// A directory that the environment may name.
#[derive(Debug, Clone, Copy, PartialEq, Eq, Structural)]
pub enum BaseDir {
    StateHome,
    Home,
}

/// Where an earlier release left a token that let it pick without asking:
/// under the state directory if that is set, else under its default place in
/// the home directory.
pub fn restore_token_place(has_state_home: bool, has_home: bool) -> (place: Option<
    (BaseDir, Vec<&'static str>),
>)
    ensures
        place is Some <==> has_state_home || has_home,
        place matches Some((base, path)) ==> if has_state_home {
            base == BaseDir::StateHome && path@ == seq!["pipecap", "restore-token"]
        } else {
            base == BaseDir::Home && path@ == seq![".local/state", "pipecap", "restore-token"]
        },
{
    if has_state_home {
        Some((BaseDir::StateHome, vec!["pipecap", "restore-token"]))
    } else if has_home {
        Some((BaseDir::Home, vec![".local/state", "pipecap", "restore-token"]))
    } else {
        None
    }
}

/// What must be kept of a granted request: the streams, the descriptor of the
/// PipeWire remote, of type `F`, and the portal's side, of type `S`.
#[derive(Debug)]
pub struct PortalHandle<F, S> {
    pub streams: Vec<StreamInfo>,
    pub pipewire_fd: Option<F>,
    pub session: Option<S>,
}

impl<F, S> PortalHandle<F, S> {
    /// Takes the descriptor, which can be had once.
    pub fn take_fd(&mut self) -> (fd: Option<F>)
        ensures
            fd == old(self).pipewire_fd,
            final(self).pipewire_fd is None,
            final(self).streams == old(self).streams,
            final(self).session == old(self).session,
    {
        self.pipewire_fd.take()
    }

    /// Takes the portal's side, to close it. Nothing is left to close a second time.
    pub fn take_session(&mut self) -> (session: Option<S>)
        ensures
            session == old(self).session,
            final(self).session is None,
            final(self).streams == old(self).streams,
            final(self).pipewire_fd == old(self).pipewire_fd,
    {
        self.session.take()
    }
}

/// Whether `states` is a run of a request from its start.
pub open spec fn is_run<E>(states: Seq<RequestView<E>>) -> bool {
    &&& states.len() > 0
    &&& states[0] is Connecting
    &&& forall|k: int|
        0 <= k < states.len() - 1 ==> exists|event: EventView<E>|
            states[k + 1] == #[trigger] (#[trigger] states[k]).next(event)
}

/// How far a request has come.
spec fn progress<E>(state: RequestView<E>) -> int {
    match state {
        RequestView::Connecting(_) => 0,
        RequestView::CreatingSession(_) => 1,
        RequestView::SelectingSources(_) => 2,
        RequestView::Starting => 3,
        RequestView::OpeningRemote(_) => 4,
        RequestView::Closing(_) => 5,
        RequestView::Finished(_) => 6,
    }
}

/// The sources that a request that has not asked for them yet is to ask for.
spec fn to_select<E>(state: RequestView<E>) -> SourceSelection {
    match state {
        RequestView::Connecting(sources) => sources,
        RequestView::CreatingSession(sources) => sources,
        RequestView::SelectingSources(sources) => sources,
        _ => arbitrary(),
    }
}

/// A request does not go back, and keeps the sources it is to ask for.
proof fn lemma_no_way_back<E>(states: Seq<RequestView<E>>, i: int, n: int)
    requires
        is_run(states),
        0 <= i <= n < states.len(),
    ensures
        progress(states[i]) <= progress(states[n]),
        progress(states[n]) <= 2 ==> to_select(states[i]) == to_select(states[n]),
    decreases n - i,
{
    if n > i {
        lemma_no_way_back(states, i, n - 1);
        let event = choose|event: EventView<E>|
            states[n - 1 + 1] == #[trigger] states[n - 1].next(event);
        assert(states[n] == states[n - 1].next(event));
    }
}

/// A run asks for sources at most once: when that has been answered, it does
/// not come back to it. It asks for those that it was made for, and the answer
/// always takes it on.
pub proof fn law_sources_are_selected_once<E>(
    states: Seq<RequestView<E>>,
    k: int,
    n: int,
    error: E,
)
    requires
        is_run(states),
        0 <= k < n < states.len(),
        states[k] is SelectingSources,
    ensures
        states[k].action() == PortalAction::SelectSources(
            source_request(states[0]->Connecting_0),
        ),
        !(states[k + 1] is SelectingSources) ==> !(states[n] is SelectingSources),
        states[k].next(EventView::Succeeded) is Starting,
        states[k].next(EventView::Failed(error)) is Closing,
{
    lemma_no_way_back(states, 0, k);
    lemma_no_way_back(states, k, k + 1);
    lemma_no_way_back(states, k + 1, n);
}

/// Every pick is the user's: whatever a request asks for, it does not repeat
/// an earlier pick, and leaves nothing to repeat this one with.
pub proof fn law_every_pick_is_asked_for<E>(state: RequestView<E>)
    ensures
        state.action() matches PortalAction::SelectSources(request) ==> request.restore_token
            is None && request.persist == PersistMode::DoNot && !request.multiple,
{
}

/// A run that got a session and ends without handing it over closed it.
pub proof fn law_unused_session_is_closed<E>(states: Seq<RequestView<E>>, k: int)
    requires
        is_run(states),
        0 <= k < states.len(),
        states[k] is SelectingSources,
        states.last() is Finished,
        !(states.last()->Finished_0 is Opened),
    ensures
        exists|j: int| k < j < states.len() && states[j] is Closing,
{
    if forall|j: int| k < j < states.len() ==> !(states[j] is Closing) {
        lemma_stays_open(states, k, states.len() - 1);
    }
}

/// A state in which there is an open session that is in use.
spec fn in_use<E>(state: RequestView<E>) -> bool {
    ||| state is SelectingSources
    ||| state is Starting
    ||| state is OpeningRemote
    ||| (state is Finished && state->Finished_0 is Opened)
}

/// Without a close, a session stays in use.
proof fn lemma_stays_open<E>(states: Seq<RequestView<E>>, k: int, n: int)
    requires
        is_run(states),
        0 <= k <= n < states.len(),
        states[k] is SelectingSources,
        forall|j: int| k < j < states.len() ==> !(states[j] is Closing),
    ensures
        in_use(states[n]),
    decreases n - k,
{
    if n > k {
        lemma_stays_open(states, k, n - 1);
        let event = choose|event: EventView<E>|
            states[n - 1 + 1] == #[trigger] states[n - 1].next(event);
        assert(states[n] == states[n - 1].next(event));
    }
}

/// A session that is handed over was not closed.
pub proof fn law_opened_session_is_not_closed<E>(states: Seq<RequestView<E>>, j: int)
    requires
        is_run(states),
        0 <= j < states.len(),
        states.last() is Finished,
        states.last()->Finished_0 is Opened,
    ensures
        !(states[j] is Closing),
{
    if states[j] is Closing {
        lemma_closing_is_final(states, j, states.len() - 1);
    }
}

/// An outcome other than streams.
spec fn given_up<E>(outcome: OutcomeView<E>) -> bool {
    !(outcome is Opened)
}

/// What a run that closes its session comes to is settled.
proof fn lemma_closing_is_final<E>(states: Seq<RequestView<E>>, j: int, n: int)
    requires
        is_run(states),
        0 <= j <= n < states.len(),
        states[j] is Closing,
    ensures
        states[n] is Closing || states[n] is Finished,
        states[n] is Closing ==> states[n]->Closing_0 == states[j]->Closing_0,
        states[n] is Finished ==> states[n]->Finished_0 == states[j]->Closing_0,
        given_up(states[j]->Closing_0),
    decreases n - j,
{
    if n > j {
        lemma_closing_is_final(states, j, n - 1);
        let event = choose|event: EventView<E>|
            states[n - 1 + 1] == #[trigger] states[n - 1].next(event);
        assert(states[n] == states[n - 1].next(event));
    } else {
        lemma_closing_gives_up(states, j);
    }
}

/// A session is closed only where no streams are handed over.
proof fn lemma_closing_gives_up<E>(states: Seq<RequestView<E>>, j: int)
    requires
        is_run(states),
        0 <= j < states.len(),
        states[j] is Closing,
    ensures
        given_up(states[j]->Closing_0),
    decreases j,
{
    let event = choose|event: EventView<E>|
        states[j - 1 + 1] == #[trigger] states[j - 1].next(event);
    assert(j > 0);
    assert(states[j] == states[j - 1].next(event));
    if states[j - 1] is Closing {
        lemma_closing_gives_up(states, j - 1);
    }
}

/// A granted request has at least one stream.
pub proof fn law_opened_has_streams<E>(states: Seq<RequestView<E>>, n: int)
    requires
        is_run(states),
        0 <= n < states.len(),
    ensures
        states[n] is OpeningRemote ==> states[n]->OpeningRemote_0.len() > 0,
        states[n] is Finished && states[n]->Finished_0 is Opened
            ==> states[n]->Finished_0->Opened_0.len() > 0,
    decreases n,
{
    if n > 0 {
        law_opened_has_streams(states, n - 1);
        let event = choose|event: EventView<E>|
            states[n - 1 + 1] == #[trigger] states[n - 1].next(event);
        assert(states[n] == states[n - 1].next(event));
        if states[n - 1] is Closing {
            lemma_closing_gives_up(states, n - 1);
        }
    }
}

/// A run in which the user cancels, or picks nothing, comes to no error.
pub proof fn law_cancelling_is_no_error<E>(states: Seq<RequestView<E>>, k: int)
    requires
        is_run(states),
        0 <= k < states.len() - 1,
        states[k] is Starting,
        states[k + 1] == states[k].next(EventView::Cancelled) || states[k + 1] == states[k].next(
            EventView::Responded(Seq::empty()),
        ),
        states.last() is Finished,
    ensures
        states.last()->Finished_0 is Cancelled,
{
    lemma_closing_is_final(states, k + 1, states.len() - 1);
}

/// Monitors can be picked unless only windows are asked for, and windows
/// unless only monitors are.
pub proof fn law_both_kinds_unless_one_is_asked_for(source_types: u32, sources: SourceSelection)
    requires
        call_ensures(requested_sources, (source_types,), sources),
    ensures
        sources.monitor <==> source_types != 2,
        sources.window <==> source_types != 1,
{
}

/// A new request is to connect first, and keeps what it is to ask for.
pub proof fn law_request_starts_by_connecting<E>(source_types: u32, request: PortalRequest<E>)
    requires
        call_ensures(PortalRequest::<E>::new, (source_types,), request),
    ensures
        request is Connecting,
        request->Connecting_0.monitor <==> source_types != 2,
        request->Connecting_0.window <==> source_types != 1,
{
}

/// Each state of a request has its action; the sources are asked for as they
/// were given, one of them, with the pointer in the picture, and with nothing
/// remembered.
pub proof fn law_state_decides_the_action<E>(request: &PortalRequest<E>, action: PortalAction)
    requires
        call_ensures(PortalRequest::<E>::action, (request,), action),
    ensures
        request is Connecting <==> action is Connect,
        request is CreatingSession <==> action is CreateSession,
        request is SelectingSources <==> action is SelectSources,
        request is Starting <==> action is Start,
        request is OpeningRemote <==> action is OpenRemote,
        request is Closing <==> action is CloseSession,
        request is Finished <==> action is Finish,
        request matches PortalRequest::SelectingSources(sources) ==> {
            let asked = action->SelectSources_0;
            &&& asked.sources.monitor == sources.monitor
            &&& asked.sources.window == sources.window
            &&& !asked.multiple
            &&& asked.cursor is Embedded
            &&& asked.restore_token is None
            &&& asked.persist is DoNot
        },
{
}

/// A request goes from one action to the next where that succeeds, and keeps
/// what it is to ask for and what was picked. Where an action fails, the
/// request ends with that failure, closing its session if it has one. Where
/// the user picks nothing, it ends cancelled, closing its session.
pub proof fn law_request_goes_step_by_step<E>(
    request: PortalRequest<E>,
    event: PortalEvent<E>,
    next: PortalRequest<E>,
)
    requires
        call_ensures(PortalRequest::<E>::step, (request, event), next),
    ensures
        request is Connecting && event is Succeeded ==> next is CreatingSession
            && next->CreatingSession_0 == request->Connecting_0,
        request is CreatingSession && event is Succeeded ==> next is SelectingSources
            && next->SelectingSources_0 == request->CreatingSession_0,
        request is SelectingSources && event is Succeeded ==> next is Starting,
        request is OpeningRemote && event is Succeeded ==> next is Finished
            && next->Finished_0 is Opened && next->Finished_0->Opened_0@
            == request->OpeningRemote_0@,
        request is Connecting || request is CreatingSession ==> (event matches PortalEvent::Failed(
            error,
        ) ==> next is Finished && next->Finished_0 == PortalOutcome::<E>::Failed(error)),
        request is SelectingSources || request is Starting || request is OpeningRemote ==> (
        event matches PortalEvent::Failed(error) ==> next is Closing && next->Closing_0
            == PortalOutcome::<E>::Failed(error)),
        request is Starting && (event is Cancelled || event is Responded
            && event->Responded_0@.len() == 0) ==> next is Closing && next->Closing_0 is Cancelled,
        request is Closing && (event is Succeeded || event is Failed) ==> next is Finished
            && next->Finished_0@ == request->Closing_0@,
        request is Finished ==> next is Finished && next->Finished_0@ == request->Finished_0@,
        event is Cancelled && !(request is Starting) ==> next@ == request@,
        event is Responded && !(request is Starting) ==> next@ == request@,
        event is Succeeded && request is Starting ==> next is Starting,
{
}

/// Each stream that the user picked is reported as the portal described it,
/// in order: a window as 2 and nothing else as that, a monitor as 1 and
/// nothing else as that, and its size as it was given, or zero.
pub proof fn law_picked_streams_are_reported<E>(
    request: PortalRequest<E>,
    replies: Vec<StreamReply>,
    next: PortalRequest<E>,
    i: int,
)
    requires
        call_ensures(
            PortalRequest::<E>::step,
            (request, PortalEvent::<E>::Responded(replies)),
            next,
        ),
        request is Starting,
        0 <= i < replies@.len(),
    ensures
        next is OpeningRemote,
        next->OpeningRemote_0@.len() == replies@.len(),
        ({
            let (reply, info) = (replies@[i], next->OpeningRemote_0@[i]);
            &&& info.node_id == reply.node_id
            &&& info.source_type == 2 <==> reply.source == Some(SourceKind::Window)
            &&& info.source_type == 1 <==> reply.source == Some(SourceKind::Monitor)
            &&& info.source_type <= 2
            &&& reply.size is Some ==> reply.size == Some((info.width, info.height))
            &&& reply.size is None ==> info.width == 0 && info.height == 0
        }),
{
}

/// From the pick on, a run that ends with streams ends with those.
proof fn lemma_opened_streams_are_kept<E>(states: Seq<RequestView<E>>, k: int, n: int)
    requires
        is_run(states),
        0 <= k <= n < states.len(),
        states[k] is OpeningRemote,
    ensures
        states[n] is OpeningRemote || states[n] is Closing || states[n] is Finished,
        states[n] is OpeningRemote ==> states[n] == states[k],
        states[n] is Closing ==> !(states[n]->Closing_0 is Opened),
        states[n] matches RequestView::Finished(OutcomeView::Opened(streams)) ==> streams
            == states[k]->OpeningRemote_0,
    decreases n - k,
{
    if n > k {
        lemma_opened_streams_are_kept(states, k, n - 1);
        let event = choose|event: EventView<E>|
            states[n - 1 + 1] == #[trigger] states[n - 1].next(event);
        assert(states[n] == states[n - 1].next(event));
    }
}

/// A run in which the user picks, and which ends with streams, ends with what
/// was picked: each stream with the node, the kind and the size that the
/// portal gave.
pub proof fn law_opened_streams_are_those_picked<E>(
    states: Seq<RequestView<E>>,
    k: int,
    replies: Seq<StreamReply>,
    i: int,
)
    requires
        is_run(states),
        0 <= k < states.len() - 1,
        states[k] is Starting,
        states[k + 1] == states[k].next(EventView::Responded(replies)),
        states.last() is Finished,
        states.last()->Finished_0 is Opened,
        0 <= i < replies.len(),
    ensures
        ({
            let streams = states.last()->Finished_0->Opened_0;
            &&& streams.len() == replies.len()
            &&& streams[i].node_id == replies[i].node_id
            &&& streams[i].source_type == 2 <==> replies[i].source == Some(SourceKind::Window)
            &&& streams[i].source_type == 1 <==> replies[i].source == Some(SourceKind::Monitor)
            &&& replies[i].size is Some ==> replies[i].size == Some(
                (streams[i].width, streams[i].height),
            )
            &&& replies[i].size is None ==> streams[i].width == 0 && streams[i].height == 0
        }),
{
    lemma_opened_streams_are_kept(states, k + 1, states.len() - 1);
}

/// Once finished, a run stays so.
proof fn lemma_finished_is_final<E>(states: Seq<RequestView<E>>, j: int, n: int)
    requires
        is_run(states),
        0 <= j <= n < states.len(),
        states[j] is Finished,
    ensures
        states[n] == states[j],
    decreases n - j,
{
    if n > j {
        lemma_finished_is_final(states, j, n - 1);
        let event = choose|event: EventView<E>|
            states[n - 1 + 1] == #[trigger] states[n - 1].next(event);
        assert(states[n] == states[n - 1].next(event));
    }
}

/// A run in which an action fails, other than closing the session, ends with
/// that failure.
pub proof fn law_failure_is_reported<E>(states: Seq<RequestView<E>>, k: int, error: E)
    requires
        is_run(states),
        0 <= k < states.len() - 1,
        !(states[k] is Closing),
        !(states[k] is Finished),
        states[k + 1] == states[k].next(EventView::Failed(error)),
        states.last() is Finished,
    ensures
        states.last()->Finished_0 == OutcomeView::<E>::Failed(error),
{
    if states[k + 1] is Closing {
        lemma_closing_is_final(states, k + 1, states.len() - 1);
    } else {
        lemma_finished_is_final(states, k + 1, states.len() - 1);
    }
}

/// The descriptor can be had once, and taking it leaves the rest.
pub proof fn law_descriptor_is_taken_once<F, S>(
    handle: &mut PortalHandle<F, S>,
    first: Option<F>,
    again: &mut PortalHandle<F, S>,
    second: Option<F>,
)
    requires
        call_ensures(PortalHandle::<F, S>::take_fd, (handle,), first),
        *old(again) == *final(handle),
        call_ensures(PortalHandle::<F, S>::take_fd, (again,), second),
    ensures
        first == old(handle).pipewire_fd,
        second is None,
        final(handle).streams == old(handle).streams,
        final(handle).session == old(handle).session,
{
}

/// The portal's side can be had once, and taking it leaves the rest.
pub proof fn law_session_is_taken_once<F, S>(
    handle: &mut PortalHandle<F, S>,
    first: Option<S>,
    again: &mut PortalHandle<F, S>,
    second: Option<S>,
)
    requires
        call_ensures(PortalHandle::<F, S>::take_session, (handle,), first),
        *old(again) == *final(handle),
        call_ensures(PortalHandle::<F, S>::take_session, (again,), second),
    ensures
        first == old(handle).session,
        second is None,
        final(handle).streams == old(handle).streams,
        final(handle).pipewire_fd == old(handle).pipewire_fd,
{
}

/// The token of an earlier release lies in the same place under the state
/// directory, whether that is set or is where the home directory has it.
pub proof fn law_token_lies_under_the_state_directory(
    has_state_home: bool,
    has_home: bool,
    place: Option<(BaseDir, Vec<&'static str>)>,
)
    requires
        call_ensures(restore_token_place, (has_state_home, has_home), place),
    ensures
        !has_state_home && !has_home <==> place is None,
        place matches Some((base, path)) ==> {
            let n = path@.len();
            &&& base is StateHome <==> has_state_home
            &&& n == if has_state_home { 2int } else { 3 }
            &&& path@[n - 2]@ == "pipecap"@
            &&& path@[n - 1]@ == "restore-token"@
            &&& !has_state_home ==> path@[0]@ == ".local/state"@
        },
{
}

} // verus!

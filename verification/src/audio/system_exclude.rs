//! Capture of all audio but that of excluded processes, so that a recording
//! application does not hear itself.
//!
//! The registry does not tell the process of an audio node; only the node's
//! own information does. So every audio node is bound, and it is decided on
//! once its information arrives.
use std::collections::{HashMap, HashSet};
use vstd::prelude::*;

use crate::registry::{Dict, DictView, Global, APPLICATION_NAME};
use crate::release::{release, Released};
use crate::text;

verus! {

broadcast use {vstd::std_specs::hash::group_hash_axioms, vstd::group_vstd_default};

/// Property of a node: the process that the server saw connecting.
pub const SEC_PID: &'static str = "pipewire.sec.pid";

/// Property of a node: the process that the application gave.
pub const PROCESS_ID: &'static str = "application.process.id";

/// The number under `key`, if there is one.
pub open spec fn number_at(props: DictView, key: Seq<char>) -> Option<u32> {
    match crate::registry::first_value(props, key) {
        Some(value) => text::parsed_u32(value),
        None => None,
    }
}

/// The processes that properties name, each once.
pub open spec fn pids_of(props: DictView) -> Seq<u32> {
    match (number_at(props, SEC_PID@), number_at(props, PROCESS_ID@)) {
        (Some(a), Some(b)) => if a == b {
            seq![a]
        } else {
            seq![a, b]
        },
        (Some(a), None) => seq![a],
        (None, Some(b)) => seq![b],
        (None, None) => seq![],
    }
}

/// The processes that a node's information names, if it comes with properties.
pub open spec fn informed_pids(props: Option<&Dict>) -> Seq<u32> {
    match props {
        Some(props) => pids_of(props@),
        None => Seq::empty(),
    }
}

/// Whether any of `pids` is in `exclude`.
pub open spec fn meets(pids: Seq<u32>, exclude: Seq<u32>) -> bool {
    exists|i: int| 0 <= i < pids.len() && exclude.contains(#[trigger] pids[i])
}

/// The number under `key`, if there is one.
fn number_in(props: &Dict, key: &str) -> (number: Option<u32>)
    ensures
        number == number_at(props@, key@),
{
    match props.get(key) {
        Some(value) => text::parse_u32(value),
        None => None,
    }
}

/// The processes that properties name, each once.
pub fn parse_pids(props: &Dict) -> (pids: Vec<u32>)
    ensures
        pids@ == pids_of(props@),
{
    let mut pids: Vec<u32> = Vec::new();
    if let Some(pid) = number_in(props, SEC_PID) {
        pids.push(pid);
    }
    if let Some(pid) = number_in(props, PROCESS_ID) {
        if pids.len() == 0 || pids[0] != pid {
            pids.push(pid);
        }
    }
    pids
}

/// Whether any of `pids` is in `exclude`.
pub fn any_excluded(pids: &[u32], exclude: &[u32]) -> (r: bool)
    ensures
        r == meets(pids@, exclude@),
{
    for i in 0..pids.len()
        invariant
            forall|a: int| 0 <= a < i ==> !exclude@.contains(#[trigger] pids@[a]),
    {
        for j in 0..exclude.len()
            invariant
                i < pids@.len(),
                forall|b: int| 0 <= b < j ==> pids@[i as int] != exclude@[b],
        {
            if pids[i] == exclude[j] {
                assert(exclude@.contains(pids@[i as int]));
                return true;
            }
        }
    }
    false
}

/// The texts in a list of names.
pub open spec fn name_views(names: Seq<String>) -> Seq<Seq<char>> {
    names.map_values(|name: String| name@)
}

/// Whether `lower`, a name in lower case, is in `names`.
pub fn name_listed(names: &[String], lower: &str) -> (r: bool)
    ensures
        r == name_views(names@).contains(lower@),
{
    for i in 0..names.len()
        invariant
            forall|j: int| 0 <= j < i ==> name_views(names@)[j] != lower@,
    {
        if text::same(&names[i], lower) {
            assert(name_views(names@)[i as int] == lower@);
            return true;
        }
    }
    false
}

/// Why a node is not captured.
#[derive(Debug, Clone, Copy, PartialEq, Eq, Structural)]
pub enum ExcludedBy {
    Pid,
    Name,
}

/// What came of a look at a node.
#[derive(Debug)]
pub enum Attach<E> {
    /// It was decided on before.
    Decided,
    /// It is not to be captured.
    Excluded(ExcludedBy),
    /// It is captured.
    Captured,
    /// It is to be captured, but its stream could not be made.
    Failed(E),
}

/// What came of the attempt to bind a node.
#[derive(Debug)]
pub enum Bound<B> {
    /// The registry is no more.
    Gone,
    /// The node could not be bound.
    Failed,
    /// The binding, to be kept while the node is there.
    Node(B),
}

/// What came of an announced object.
#[derive(Debug)]
pub enum Announced<E> {
    /// It plays no audio.
    Ignored,
    /// It plays audio, but the registry is no more.
    Gone,
    /// It is bound, and decided on once its information arrives.
    Watched,
    /// It could not be bound, and was decided on by its name.
    Unbound(Attach<E>),
}

/// The capture: the streams that run, of type `L`, and the bindings that are
/// kept, of type `B`, by node id.
pub struct State<L, B> {
    live: HashMap<u32, L>,
    decided: HashSet<u32>,
    pending_bindings: HashMap<u32, B>,
    exclude_pids: Vec<u32>,
    exclude_app_names_lower: Vec<String>,
}

/// What a capture holds.
#[verifier::ext_equal]
pub struct StateView<L, B> {
    /// The streams that run.
    pub live: Map<u32, L>,
    /// The nodes that were decided on. Information arrives more than once for
    /// a node, and later on without its process.
    pub decided: Set<u32>,
    /// The bindings.
    pub pending_bindings: Map<u32, B>,
    /// The processes that are not captured.
    pub exclude_pids: Seq<u32>,
    /// The names, in lower case, of applications that are not captured.
    pub exclude_app_names_lower: Seq<Seq<char>>,
}

impl<L, B> View for State<L, B> {
    type V = StateView<L, B>;

    closed spec fn view(&self) -> StateView<L, B> {
        StateView {
            live: self.live@,
            decided: self.decided@,
            pending_bindings: self.pending_bindings@,
            exclude_pids: self.exclude_pids@,
            exclude_app_names_lower: name_views(self.exclude_app_names_lower@),
        }
    }
}

/// The text in an optional text.
pub open spec fn text_view(text: Option<&str>) -> Option<Seq<char>> {
    match text {
        Some(text) => Some(text@),
        None => None,
    }
}

/// The text in an optional owned text.
pub open spec fn string_view(text: Option<String>) -> Option<Seq<char>> {
    match text {
        Some(text) => Some(text@),
        None => None,
    }
}

/// The name that an announced object gives its application.
pub open spec fn announced_name(global: Global) -> Option<Seq<char>> {
    crate::registry::first_value(global.props->0@, APPLICATION_NAME@)
}

impl<L, B> StateView<L, B> {
    /// Every node that is captured was decided on.
    pub open spec fn consistent(self) -> bool {
        forall|id: u32| #[trigger] self.live.contains_key(id) ==> self.decided.contains(id)
    }

    /// The stream that captures the node `id`, if it is captured.
    pub open spec fn stream(self, id: u32) -> Option<L> {
        if self.live.contains_key(id) {
            Some(self.live[id])
        } else {
            None
        }
    }

    /// Why a node of these processes and this application is not captured;
    /// `None` if it is. A node of which nothing is known is captured.
    pub open spec fn exclusion(self, pids: Seq<u32>, app_name: Option<Seq<char>>) -> Option<
        ExcludedBy,
    > {
        if meets(pids, self.exclude_pids) {
            Some(ExcludedBy::Pid)
        } else {
            match app_name {
                Some(name) => if self.exclude_app_names_lower.contains(text::lowercase(name)) {
                    Some(ExcludedBy::Name)
                } else {
                    None
                },
                None => None,
            }
        }
    }

    /// The capture after `node_id` has been decided on, without capturing it.
    pub open spec fn deciding(self, node_id: u32) -> StateView<L, B> {
        StateView { decided: self.decided.insert(node_id), ..self }
    }

    /// The capture after `stream` has been started for `node_id`.
    pub open spec fn capturing(self, node_id: u32, stream: L) -> StateView<L, B> {
        StateView {
            live: self.live.insert(node_id, stream),
            decided: self.decided.insert(node_id),
            ..self
        }
    }

    /// The capture with `binding` kept for `node_id`.
    pub open spec fn watching(self, node_id: u32, binding: B) -> StateView<L, B> {
        StateView { pending_bindings: self.pending_bindings.insert(node_id, binding), ..self }
    }

    /// The capture after the node `id` has gone.
    pub open spec fn without(self, id: u32) -> StateView<L, B> {
        StateView {
            live: self.live.remove(id),
            decided: self.decided.remove(id),
            pending_bindings: self.pending_bindings.remove(id),
            ..self
        }
    }
}

/// What a look at a node does, where `created` is what making its stream
/// would give.
pub open spec fn attach_effect<L, B, E>(
    before: StateView<L, B>,
    node_id: u32,
    pids: Seq<u32>,
    app_name: Option<Seq<char>>,
    created: Result<L, E>,
) -> (StateView<L, B>, Attach<E>) {
    if before.decided.contains(node_id) {
        (before, Attach::Decided)
    } else {
        match before.exclusion(pids, app_name) {
            Some(reason) => (before.deciding(node_id), Attach::Excluded(reason)),
            None => match created {
                Ok(stream) => (before.capturing(node_id, stream), Attach::Captured),
                Err(error) => (before, Attach::Failed(error)),
            },
        }
    }
}

/// Whether a look at a node leads to the attempt to capture it.
pub open spec fn to_capture<L, B>(
    before: StateView<L, B>,
    node_id: u32,
    pids: Seq<u32>,
    app_name: Option<Seq<char>>,
) -> bool {
    !before.decided.contains(node_id) && before.exclusion(pids, app_name) is None
}

/// Whether a look at a node, which makes its stream with `create_stream` if
/// it is to be captured, may lead to `after` and `outcome`.
pub open spec fn attached<L, B, E, C: FnOnce(u32) -> Result<L, E>>(
    before: StateView<L, B>,
    node_id: u32,
    pids: Seq<u32>,
    app_name: Option<Seq<char>>,
    create_stream: C,
    after: StateView<L, B>,
    outcome: Attach<E>,
) -> bool {
    exists|created: Result<L, E>|
        (after, outcome) == #[trigger] attach_effect(before, node_id, pids, app_name, created) && (
        to_capture(before, node_id, pids, app_name) ==> call_ensures(
            create_stream,
            (node_id,),
            created,
        ))
}

impl<L, B> State<L, B> {
    /// A capture that runs nothing yet.
    pub fn new(exclude_pids: Vec<u32>, exclude_app_names: &[String]) -> (state: State<L, B>)
        ensures
            state@.live == Map::<u32, L>::empty(),
            state@.decided == Set::<u32>::empty(),
            state@.pending_bindings == Map::<u32, B>::empty(),
            state@.exclude_pids == exclude_pids@,
            state@.exclude_app_names_lower == name_views(exclude_app_names@).map_values(
                |name: Seq<char>| text::lowercase(name),
            ),
            state@.consistent(),
    {
        let mut lower: Vec<String> = Vec::new();
        for i in 0..exclude_app_names.len()
            invariant
                lower@.len() == i,
                forall|j: int|
                    0 <= j < i ==> (#[trigger] lower@[j])@ == text::lowercase(
                        exclude_app_names@[j]@,
                    ),
        {
            lower.push(text::to_lowercase(&exclude_app_names[i]));
        }
        assert(name_views(lower@) =~= name_views(exclude_app_names@).map_values(
            |name: Seq<char>| text::lowercase(name),
        ));
        State {
            live: HashMap::new(),
            decided: HashSet::new(),
            pending_bindings: HashMap::new(),
            exclude_pids,
            exclude_app_names_lower: lower,
        }
    }

    /// Why a node of these processes and this application is not captured;
    /// `None` if it is.
    fn exclusion(&self, pids: &[u32], app_name: Option<&str>) -> (reason: Option<ExcludedBy>)
        ensures
            reason == self@.exclusion(pids@, text_view(app_name)),
    {
        if any_excluded(pids, &self.exclude_pids) {
            return Some(ExcludedBy::Pid);
        }
        match app_name {
            Some(name) => if name_listed(
                &self.exclude_app_names_lower,
                &text::to_lowercase(name),
            ) {
                Some(ExcludedBy::Name)
            } else {
                None
            },
            None => None,
        }
    }

    /// Decides on a node, and captures it with `create_stream` unless it is
    /// excluded. Once decided, a node stays decided until it goes. A node
    /// whose stream could not be made is left open. No stream is made for a
    /// node that is excluded or was decided on before.
    pub fn try_attach<E, C: FnOnce(u32) -> Result<L, E>>(
        &mut self,
        node_id: u32,
        pids: &[u32],
        app_name: Option<&str>,
        create_stream: C,
    ) -> (outcome: Attach<E>)
        requires
            to_capture(old(self)@, node_id, pids@, text_view(app_name)) ==> call_requires(
                create_stream,
                (node_id,),
            ),
        ensures
            attached(
                old(self)@,
                node_id,
                pids@,
                text_view(app_name),
                create_stream,
                final(self)@,
                outcome,
            ),
            old(self)@.consistent() ==> final(self)@.consistent(),
    {
        let ghost before = self@;
        let ghost name = text_view(app_name);
        if self.decided.contains(&node_id) {
            let ghost any: Result<L, E> = arbitrary();
            assert((self@, Attach::<E>::Decided) == attach_effect(
                before,
                node_id,
                pids@,
                name,
                any,
            ));
            return Attach::Decided;
        }
        if let Some(reason) = self.exclusion(pids, app_name) {
            self.decided.insert(node_id);
            let ghost any: Result<L, E> = arbitrary();
            assert((self@, Attach::<E>::Excluded(reason)) == attach_effect(
                before,
                node_id,
                pids@,
                name,
                any,
            ));
            return Attach::Excluded(reason);
        }
        let created = create_stream(node_id);
        let ghost result = created;
        match created {
            Ok(stream) => {
                self.live.insert(node_id, stream);
                self.decided.insert(node_id);
                assert((self@, Attach::<E>::Captured) == attach_effect(
                    before,
                    node_id,
                    pids@,
                    name,
                    result,
                ));
                Attach::Captured
            },
            Err(error) => {
                assert((self@, Attach::<E>::Failed(error)) == attach_effect(
                    before,
                    node_id,
                    pids@,
                    name,
                    result,
                ));
                Attach::Failed(error)
            },
        }
    }

    /// The information of a bound node arrived, with its properties if it has
    /// any. `app_name` is the name that the node was announced with.
    pub fn on_info<E, C: FnOnce(u32) -> Result<L, E>>(
        &mut self,
        node_id: u32,
        props: Option<&Dict>,
        app_name: Option<&str>,
        create_stream: C,
    ) -> (outcome: Attach<E>)
        requires
            to_capture(old(self)@, node_id, informed_pids(props), text_view(app_name))
                ==> call_requires(create_stream, (node_id,)),
        ensures
            attached(
                old(self)@,
                node_id,
                informed_pids(props),
                text_view(app_name),
                create_stream,
                final(self)@,
                outcome,
            ),
            old(self)@.consistent() ==> final(self)@.consistent(),
    {
        let pids: Vec<u32> = match props {
            Some(props) => parse_pids(props),
            None => Vec::new(),
        };
        self.try_attach(node_id, &pids, app_name, create_stream)
    }

    /// An object was announced. If it plays audio, binds it with `bind`, which
    /// is given its id and the name of its application. One that cannot be
    /// bound is decided on by its name alone.
    pub fn on_global<E, D: FnOnce(u32, Option<String>) -> Bound<B>, C: FnOnce(u32) -> Result<
        L,
        E,
    >>(&mut self, global: &Global, bind: D, create_stream: C) -> (outcome: Announced<E>)
        requires
            global.plays_audio() ==> forall|name: Option<String>|
                string_view(name) == announced_name(*global) ==> #[trigger] call_requires(
                    bind,
                    (global.id, name),
                ),
            global.plays_audio() && to_capture(
                old(self)@,
                global.id,
                Seq::empty(),
                announced_name(*global),
            ) ==> forall|name: Option<String>| #[trigger]
                call_ensures(bind, (global.id, name), Bound::<B>::Failed) ==> call_requires(
                    create_stream,
                    (global.id,),
                ),
        ensures
            outcome is Ignored <==> !global.plays_audio(),
            outcome is Ignored ==> final(self)@ == old(self)@,
            global.plays_audio() ==> exists|name: Option<String>, bound: Bound<B>| #[trigger]
                call_ensures(bind, (global.id, name), bound) && string_view(name) == announced_name(
                    *global,
                ) && match bound {
                    Bound::Gone => outcome is Gone && final(self)@ == old(self)@,
                    Bound::Node(binding) => outcome is Watched && final(self)@
                        == old(self)@.watching(global.id, binding),
                    Bound::Failed => outcome is Unbound && attached(
                        old(self)@,
                        global.id,
                        Seq::empty(),
                        announced_name(*global),
                        create_stream,
                        final(self)@,
                        outcome->Unbound_0,
                    ),
                },
            old(self)@.consistent() ==> final(self)@.consistent(),
    {
        let props = match global.audio_props() {
            Some(props) => props,
            None => {
                return Announced::Ignored;
            },
        };
        let (app_name, given): (Option<&str>, Option<String>) = match props.get(APPLICATION_NAME) {
            Some(name) => (Some(name.as_str()), Some(name.clone())),
            None => (None, None),
        };
        match bind(global.id, given) {
            Bound::Gone => Announced::Gone,
            Bound::Node(binding) => {
                self.pending_bindings.insert(global.id, binding);
                Announced::Watched
            },
            Bound::Failed => {
                let pids: Vec<u32> = Vec::new();
                Announced::Unbound(self.try_attach(global.id, &pids, app_name, create_stream))
            },
        }
    }

    /// An object has gone: drops its stream, forgets what was decided on it,
    /// drops its binding, and then, with `remove_source`, its samples: a stream
    /// that still runs could bring more.
    pub fn on_global_remove<R: FnOnce(u32, Released<Option<L>>)>(
        &mut self,
        id: u32,
        remove_source: R,
    )
        requires
            forall|released: Released<Option<L>>|
                released@ == old(self)@.stream(id) ==> #[trigger] call_requires(
                    remove_source,
                    (id, released),
                ),
        ensures
            final(self)@ == old(self)@.without(id),
            exists|released: Released<Option<L>>|
                released@ == old(self)@.stream(id) && #[trigger] call_ensures(
                    remove_source,
                    (id, released),
                    (),
                ),
            old(self)@.consistent() ==> final(self)@.consistent(),
    {
        let released = release(self.live.remove(&id));
        let _ = self.decided.remove(&id);
        let _ = self.pending_bindings.remove(&id);
        remove_source(id, released);
    }
}

/// Whether `after` follows `before` by one event: a look at any node, a node
/// being bound, or a node other than `id` going.
pub open spec fn follows<L, B, E>(
    before: StateView<L, B>,
    after: StateView<L, B>,
    id: u32,
) -> bool {
    ||| exists|
        node_id: u32,
        pids: Seq<u32>,
        app_name: Option<Seq<char>>,
        created: Result<L, E>,
    |
        after == (#[trigger] attach_effect(before, node_id, pids, app_name, created)).0
    ||| exists|node_id: u32, binding: B| after == #[trigger] before.watching(node_id, binding)
    ||| exists|other: u32| other != id && after == #[trigger] before.without(other)
}

/// Whether `id` was decided on and is not captured.
pub open spec fn left_out<L, B>(state: StateView<L, B>, id: u32) -> bool {
    state.decided.contains(id) && !state.live.contains_key(id)
}

/// A node that was left out stays out, whatever is said of it later and
/// whatever happens to others, until it goes.
pub proof fn law_left_out_stays_out<L, B, E>(states: Seq<StateView<L, B>>, id: u32)
    requires
        states.len() > 0,
        left_out(states[0], id),
        forall|k: int|
            0 <= k < states.len() - 1 ==> follows::<L, B, E>(
                #[trigger] states[k],
                states[k + 1],
                id,
            ),
    ensures
        left_out(states.last(), id),
    decreases states.len(),
{
    if states.len() > 1 {
        let earlier = states.drop_last();
        assert forall|k: int| 0 <= k < earlier.len() - 1 implies follows::<L, B, E>(
            #[trigger] earlier[k],
            earlier[k + 1],
            id,
        ) by {
            assert(earlier[k] == states[k]);
        }
        law_left_out_stays_out::<L, B, E>(earlier, id);
        assert(earlier.last() == states[states.len() - 2]);
        assert(follows::<L, B, E>(states[states.len() - 2], states[states.len() - 1], id));
    }
}

/// A node that is seen first with an excluded process is left out.
pub proof fn law_excluded_process_is_left_out<L, B, E>(
    before: StateView<L, B>,
    node_id: u32,
    pids: Seq<u32>,
    app_name: Option<Seq<char>>,
    created: Result<L, E>,
)
    requires
        before.consistent(),
        !before.decided.contains(node_id),
        meets(pids, before.exclude_pids),
    ensures
        left_out(attach_effect(before, node_id, pids, app_name, created).0, node_id),
{
}

/// A process that properties name, under either key, is seen.
pub proof fn law_either_process_is_seen(props: DictView, pid: u32, exclude: Seq<u32>)
    requires
        number_at(props, SEC_PID@) == Some(pid) || number_at(props, PROCESS_ID@) == Some(pid),
        exclude.contains(pid),
    ensures
        meets(pids_of(props), exclude),
{
    let pids = pids_of(props);
    if pids[0] == pid {
        assert(exclude.contains(pids[0]));
    } else {
        assert(exclude.contains(pids[1]));
    }
}

/// A node of which nothing is known is captured.
pub proof fn law_unknown_node_is_captured<L, B>(state: StateView<L, B>)
    ensures
        state.exclusion(Seq::empty(), None) is None,
{
}

/// The first decision on a node stands: a later look changes nothing.
pub proof fn law_first_decision_stands<L, B, E>(
    before: StateView<L, B>,
    node_id: u32,
    pids: Seq<u32>,
    app_name: Option<Seq<char>>,
    created: Result<L, E>,
    later_pids: Seq<u32>,
    later_name: Option<Seq<char>>,
    later_created: Result<L, E>,
)
    requires
        !(attach_effect(before, node_id, pids, app_name, created).1 is Failed),
    ensures
        ({
            let after = attach_effect(before, node_id, pids, app_name, created).0;
            attach_effect(after, node_id, later_pids, later_name, later_created) == (
                after,
                Attach::<E>::Decided,
            )
        }),
{
}

/// A node that has gone leaves nothing behind, and is decided on anew should
/// its id come back.
pub proof fn law_gone_node_is_forgotten<L, B>(state: StateView<L, B>, id: u32)
    ensures
        !state.without(id).live.contains_key(id),
        !state.without(id).decided.contains(id),
        !state.without(id).pending_bindings.contains_key(id),
{
}

/// A process is named by properties if and only if one of the two keys has it
/// as its number, and is listed once.
pub proof fn law_pids_are_those_of_the_two_keys(props: &Dict, pids: Vec<u32>, pid: u32)
    requires
        call_ensures(parse_pids, (props,), pids),
    ensures
        pids@.contains(pid) <==> has_number(props@, "pipewire.sec.pid"@, pid) || has_number(
            props@,
            "application.process.id"@,
            pid,
        ),
        pids@.no_duplicates(),
{
    lemma_pids_of(props@, pid);
}

/// Whether the first pair with `key` has the text of the number `pid` as its
/// value.
pub open spec fn has_number(props: DictView, key: Seq<char>, pid: u32) -> bool {
    crate::registry::first_value(props, key) is Some && text::parsed_u32(
        crate::registry::first_value(props, key)->0,
    ) == Some(pid)
}

proof fn lemma_pids_of(props: DictView, pid: u32)
    ensures
        pids_of(props).contains(pid) <==> has_number(props, "pipewire.sec.pid"@, pid)
            || has_number(props, "application.process.id"@, pid),
{
    let pids = pids_of(props);
    if has_number(props, "pipewire.sec.pid"@, pid) {
        assert(pids[0] == pid);
    } else if has_number(props, "application.process.id"@, pid) {
        assert(pids[pids.len() - 1] == pid);
    }
}

/// Processes meet the excluded ones if and only if there is one that is among
/// both.
pub proof fn law_exclusion_needs_a_common_process(pids: &[u32], exclude: &[u32], r: bool)
    requires
        call_ensures(any_excluded, (pids, exclude), r),
    ensures
        r <==> exists|pid: u32| #[trigger] pids@.contains(pid) && exclude@.contains(pid),
{
    lemma_meets(pids@, exclude@);
}

proof fn lemma_meets(pids: Seq<u32>, exclude: Seq<u32>)
    ensures
        meets(pids, exclude) <==> exists|pid: u32| #[trigger]
            pids.contains(pid) && exclude.contains(pid),
{
    if meets(pids, exclude) {
        let i = choose|i: int| 0 <= i < pids.len() && exclude.contains(#[trigger] pids[i]);
        assert(pids.contains(pids[i]));
    }
    if exists|pid: u32| #[trigger] pids.contains(pid) && exclude.contains(pid) {
        let pid = choose|pid: u32| #[trigger] pids.contains(pid) && exclude.contains(pid);
        let i = choose|i: int| 0 <= i < pids.len() && pids[i] == pid;
        assert(exclude.contains(pids[i]));
    }
}

/// A name is listed if and only if one of the names is the same text.
pub proof fn law_listed_name_is_one_of_the_names(names: &[String], lower: &str, r: bool)
    requires
        call_ensures(name_listed, (names, lower), r),
    ensures
        r <==> exists|i: int| 0 <= i < names@.len() && (#[trigger] names@[i])@ == lower@,
{
    let views = name_views(names@);
    if r {
        let i = choose|i: int| 0 <= i < views.len() && views[i] == lower@;
        assert(names@[i]@ == lower@);
    }
    if exists|i: int| 0 <= i < names@.len() && (#[trigger] names@[i])@ == lower@ {
        let i = choose|i: int| 0 <= i < names@.len() && (#[trigger] names@[i])@ == lower@;
        assert(views[i] == lower@);
    }
}

/// A capture starts with nothing captured, decided or bound, and excludes the
/// processes it was given, and the applications it was given, in lower case.
pub proof fn law_capture_starts_empty<L, B>(
    exclude_pids: Vec<u32>,
    exclude_app_names: &[String],
    state: State<L, B>,
    id: u32,
)
    requires
        call_ensures(State::<L, B>::new, (exclude_pids, exclude_app_names), state),
    ensures
        !state@.live.contains_key(id),
        !state@.decided.contains(id),
        !state@.pending_bindings.contains_key(id),
        state@.exclude_pids == exclude_pids@,
        state@.exclude_app_names_lower.len() == exclude_app_names@.len(),
        forall|i: int|
            0 <= i < exclude_app_names@.len() ==> #[trigger] state@.exclude_app_names_lower[i]
                == text::lowercase(exclude_app_names@[i]@),
{
}

/// What a look at a node may come to, whatever the function that takes it
/// read the processes from.
spec fn looked_at<L, B, E, C: FnOnce(u32) -> Result<L, E>>(
    before: StateView<L, B>,
    node_id: u32,
    pids: Seq<u32>,
    app_name: Option<Seq<char>>,
    create_stream: C,
    after: StateView<L, B>,
    outcome: Attach<E>,
) -> bool {
    let shared = exists|pid: u32| #[trigger]
        pids.contains(pid) && before.exclude_pids.contains(pid);
    let listed = app_name is Some && before.exclude_app_names_lower.contains(
        text::lowercase(app_name->0),
    );
    &&& outcome is Decided <==> before.decided.contains(node_id)
    &&& outcome is Decided ==> after == before
    &&& !before.decided.contains(node_id) ==> {
        &&& outcome == Attach::<E>::Excluded(ExcludedBy::Pid) <==> shared
        &&& outcome == Attach::<E>::Excluded(ExcludedBy::Name) <==> !shared && listed
        &&& outcome is Captured || outcome is Failed <==> !shared && !listed
    }
    &&& outcome is Excluded ==> after.decided.contains(node_id) && after.live == before.live
    &&& outcome is Captured ==> after.decided.contains(node_id) && after.live.contains_key(node_id)
        && call_ensures(create_stream, (node_id,), Ok::<L, E>(after.live[node_id]))
    &&& outcome matches Attach::Failed(error) ==> after == before && call_ensures(
        create_stream,
        (node_id,),
        Err::<L, E>(error),
    )
    &&& forall|other: u32|
        other != node_id ==> (#[trigger] after.decided.contains(other) <==> before.decided.contains(
            other,
        )) && (after.live.contains_key(other) <==> before.live.contains_key(other)) && (
        before.live.contains_key(other) ==> after.live[other] == before.live[other])
    &&& after.pending_bindings == before.pending_bindings
    &&& after.exclude_pids == before.exclude_pids
    &&& after.exclude_app_names_lower == before.exclude_app_names_lower
}

proof fn lemma_looked_at<L, B, E, C: FnOnce(u32) -> Result<L, E>>(
    before: StateView<L, B>,
    node_id: u32,
    pids: Seq<u32>,
    app_name: Option<Seq<char>>,
    create_stream: C,
    after: StateView<L, B>,
    outcome: Attach<E>,
)
    requires
        attached(before, node_id, pids, app_name, create_stream, after, outcome),
    ensures
        looked_at(before, node_id, pids, app_name, create_stream, after, outcome),
{
    lemma_meets(pids, before.exclude_pids);
}

/// A node that was decided on is met with nothing. Of the others, one is left
/// out by process if and only if one of its processes is among the excluded,
/// by name if and only if it is not that and its name in lower case is among
/// the excluded, and is else captured, if its stream can be made. No other
/// node is touched.
pub proof fn law_nodes_are_left_out_only_for_cause<L, B, E, C: FnOnce(u32) -> Result<L, E>>(
    state: &mut State<L, B>,
    node_id: u32,
    pids: &[u32],
    app_name: Option<&str>,
    create_stream: C,
    outcome: Attach<E>,
)
    requires
        call_ensures(
            State::<L, B>::try_attach::<E, C>,
            (state, node_id, pids, app_name, create_stream),
            outcome,
        ),
    ensures
        ({
            let (before, after) = (old(state)@, final(state)@);
            let shared = exists|pid: u32| #[trigger]
                pids@.contains(pid) && before.exclude_pids.contains(pid);
            let listed = app_name is Some && before.exclude_app_names_lower.contains(
                text::lowercase(app_name->0@),
            );
            &&& outcome is Decided <==> before.decided.contains(node_id)
            &&& outcome is Decided ==> after == before
            &&& !before.decided.contains(node_id) ==> {
                &&& outcome == Attach::<E>::Excluded(ExcludedBy::Pid) <==> shared
                &&& outcome == Attach::<E>::Excluded(ExcludedBy::Name) <==> !shared && listed
                &&& outcome is Captured || outcome is Failed <==> !shared && !listed
            }
            &&& outcome is Excluded ==> after.decided.contains(node_id) && after.live
                == before.live
            &&& outcome is Captured ==> after.decided.contains(node_id) && after.live.contains_key(
                node_id,
            ) && call_ensures(create_stream, (node_id,), Ok::<L, E>(after.live[node_id]))
            &&& outcome matches Attach::Failed(error) ==> after == before && call_ensures(
                create_stream,
                (node_id,),
                Err::<L, E>(error),
            )
            &&& forall|other: u32|
                other != node_id ==> (#[trigger] after.decided.contains(other)
                    <==> before.decided.contains(other)) && (after.live.contains_key(other)
                    <==> before.live.contains_key(other)) && (before.live.contains_key(other)
                    ==> after.live[other] == before.live[other])
            &&& after.pending_bindings == before.pending_bindings
            &&& after.exclude_pids == before.exclude_pids
            &&& after.exclude_app_names_lower == before.exclude_app_names_lower
        }),
{
    lemma_looked_at(
        old(state)@,
        node_id,
        pids@,
        text_view(app_name),
        create_stream,
        final(state)@,
        outcome,
    );
}

/// When a node's information arrives, it is left out by process if and only if
/// one of the two keys has an excluded process as its number, by name if and
/// only if it is not that and its name in lower case is among the excluded,
/// and is else captured, if its stream can be made; unless it was decided on
/// before, which stands.
pub proof fn law_information_decides_by_both_keys<L, B, E, C: FnOnce(u32) -> Result<L, E>>(
    state: &mut State<L, B>,
    node_id: u32,
    props: Option<&Dict>,
    app_name: Option<&str>,
    create_stream: C,
    outcome: Attach<E>,
)
    requires
        call_ensures(
            State::<L, B>::on_info::<E, C>,
            (state, node_id, props, app_name, create_stream),
            outcome,
        ),
    ensures
        ({
            let (before, after) = (old(state)@, final(state)@);
            let shared = props is Some && exists|pid: u32| #[trigger]
                before.exclude_pids.contains(pid) && (has_number(
                    props->0@,
                    "pipewire.sec.pid"@,
                    pid,
                ) || has_number(props->0@, "application.process.id"@, pid));
            let listed = app_name is Some && before.exclude_app_names_lower.contains(
                text::lowercase(app_name->0@),
            );
            &&& outcome is Decided <==> before.decided.contains(node_id)
            &&& outcome is Decided ==> after == before
            &&& !before.decided.contains(node_id) ==> {
                &&& outcome == Attach::<E>::Excluded(ExcludedBy::Pid) <==> shared
                &&& outcome == Attach::<E>::Excluded(ExcludedBy::Name) <==> !shared && listed
                &&& outcome is Captured || outcome is Failed <==> !shared && !listed
            }
            &&& outcome is Excluded ==> after.decided.contains(node_id) && after.live
                == before.live
            &&& outcome is Captured ==> after.decided.contains(node_id) && after.live.contains_key(
                node_id,
            )
            &&& outcome is Failed ==> after == before
            &&& forall|other: u32|
                other != node_id ==> (#[trigger] after.decided.contains(other)
                    <==> before.decided.contains(other)) && (after.live.contains_key(other)
                    <==> before.live.contains_key(other)) && (before.live.contains_key(other)
                    ==> after.live[other] == before.live[other])
            &&& after.pending_bindings == before.pending_bindings
            &&& after.exclude_pids == before.exclude_pids
            &&& after.exclude_app_names_lower == before.exclude_app_names_lower
        }),
{
    let pids = informed_pids(props);
    lemma_looked_at(
        old(state)@,
        node_id,
        pids,
        text_view(app_name),
        create_stream,
        final(state)@,
        outcome,
    );
    lemma_informed_pids_meet(props, old(state)@.exclude_pids);
}

/// What it takes for a node's information to name an excluded process.
proof fn lemma_informed_pids_meet(props: Option<&Dict>, exclude: Seq<u32>)
    ensures
        (exists|pid: u32| #[trigger] informed_pids(props).contains(pid) && exclude.contains(pid))
            <==> props is Some && exists|pid: u32| #[trigger]
            exclude.contains(pid) && (has_number(props->0@, "pipewire.sec.pid"@, pid)
                || has_number(props->0@, "application.process.id"@, pid)),
{
    let pids = informed_pids(props);
    if props is Some {
        if exists|pid: u32| #[trigger] pids.contains(pid) && exclude.contains(pid) {
            let pid = choose|pid: u32| #[trigger] pids.contains(pid) && exclude.contains(pid);
            lemma_pids_of(props->0@, pid);
            assert(exclude.contains(pid));
        }
        if exists|pid: u32| #[trigger]
            exclude.contains(pid) && (has_number(props->0@, "pipewire.sec.pid"@, pid)
                || has_number(props->0@, "application.process.id"@, pid)) {
            let pid = choose|pid: u32| #[trigger]
                exclude.contains(pid) && (has_number(props->0@, "pipewire.sec.pid"@, pid)
                    || has_number(props->0@, "application.process.id"@, pid));
            lemma_pids_of(props->0@, pid);
            assert(pids.contains(pid));
        }
    }
}

/// An announced object that plays no audio changes nothing. One that does is
/// bound, with the name that it gives its application, and the binding is
/// kept; where it cannot be bound, it is left out if and only if that name, in
/// lower case, is among the excluded.
pub proof fn law_announced_streams_are_bound<
    L,
    B,
    E,
    D: FnOnce(u32, Option<String>) -> Bound<B>,
    C: FnOnce(u32) -> Result<L, E>,
>(
    state: &mut State<L, B>,
    global: &Global,
    bind: D,
    create_stream: C,
    outcome: Announced<E>,
)
    requires
        call_ensures(
            State::<L, B>::on_global::<E, D, C>,
            (state, global, bind, create_stream),
            outcome,
        ),
    ensures
        ({
            let (before, after) = (old(state)@, final(state)@);
            let name = crate::registry::first_value(global.props->0@, "application.name"@);
            &&& outcome is Ignored <==> !global.plays_audio()
            &&& outcome is Ignored || outcome is Gone ==> after == before
            &&& outcome is Watched ==> {
                &&& after.pending_bindings.contains_key(global.id)
                &&& exists|given: Option<String>, bound: Bound<B>| #[trigger]
                    call_ensures(bind, (global.id, given), bound) && bound == Bound::<B>::Node(
                        after.pending_bindings[global.id],
                    ) && (given is Some <==> name is Some) && (given is Some ==> name == Some(
                        given->0@,
                    ))
                &&& forall|other: u32|
                    other != global.id ==> (#[trigger] after.pending_bindings.contains_key(other)
                        <==> before.pending_bindings.contains_key(other)) && (
                    before.pending_bindings.contains_key(other) ==> after.pending_bindings[other]
                        == before.pending_bindings[other])
                &&& after.live == before.live
                &&& after.decided == before.decided
                &&& after.exclude_pids == before.exclude_pids
                &&& after.exclude_app_names_lower == before.exclude_app_names_lower
            }
            &&& outcome matches Announced::Unbound(attach) ==> {
                &&& after.pending_bindings == before.pending_bindings
                &&& attach is Decided <==> before.decided.contains(global.id)
                &&& attach is Decided ==> after == before
                &&& attach is Excluded <==> !before.decided.contains(global.id) && name is Some
                    && before.exclude_app_names_lower.contains(text::lowercase(name->0))
                &&& attach is Excluded ==> after.decided.contains(global.id) && after.live
                    == before.live
                &&& attach is Captured ==> after.decided.contains(global.id)
                    && after.live.contains_key(global.id)
                &&& attach is Failed ==> after == before
            }
        }),
{
    if global.plays_audio() {
        let (given, bound) = choose|name: Option<String>, bound: Bound<B>| #[trigger]
            call_ensures(bind, (global.id, name), bound) && string_view(name) == announced_name(
                *global,
            ) && match bound {
                Bound::Gone => outcome is Gone && final(state)@ == old(state)@,
                Bound::Node(binding) => outcome is Watched && final(state)@ == old(state)@.watching(global.id, binding),
                Bound::Failed => outcome is Unbound && attached(
                    old(state)@,
                    global.id,
                    Seq::empty(),
                    announced_name(*global),
                    create_stream,
                    final(state)@,
                    outcome->Unbound_0,
                ),
            };
        if bound is Failed {
            lemma_looked_at(
                old(state)@,
                global.id,
                Seq::empty(),
                announced_name(*global),
                create_stream,
                final(state)@,
                outcome->Unbound_0,
            );
        }
    }
}

/// A node that goes leaves nothing behind, and no other is touched.
pub proof fn law_only_the_gone_node_is_forgotten<L, B, R: FnOnce(u32, Released<Option<L>>)>(
    state: &mut State<L, B>,
    id: u32,
    remove_source: R,
    other: u32,
)
    requires
        call_ensures(State::<L, B>::on_global_remove::<R>, (state, id, remove_source), ()),
    ensures
        ({
            let (before, after) = (old(state)@, final(state)@);
            &&& !after.live.contains_key(id)
            &&& !after.decided.contains(id)
            &&& !after.pending_bindings.contains_key(id)
            &&& exists|released: Released<Option<L>>| #[trigger]
                call_ensures(remove_source, (id, released), ()) && (released@ is Some
                    <==> before.live.contains_key(id)) && (before.live.contains_key(id)
                    ==> released@ == Some(before.live[id]))
            &&& other != id ==> {
                &&& after.live.contains_key(other) <==> before.live.contains_key(other)
                &&& before.live.contains_key(other) ==> after.live[other] == before.live[other]
                &&& after.decided.contains(other) <==> before.decided.contains(other)
                &&& after.pending_bindings.contains_key(other)
                    <==> before.pending_bindings.contains_key(other)
                &&& before.pending_bindings.contains_key(other) ==> after.pending_bindings[other]
                    == before.pending_bindings[other]
            }
            &&& after.exclude_pids == before.exclude_pids
            &&& after.exclude_app_names_lower == before.exclude_app_names_lower
        }),
{
}

} // verus!

//! Multi-source audio mixer.
//!
//! Each capture stream pushes its samples into a queue of its own, keyed by
//! the PipeWire node id. `drain` consumes the largest prefix common to all
//! sources that have samples and adds the sources up, sample by sample. A
//! source that has not produced samples for a while is dropped, with what it
//! has queued, so that a stalled stream cannot hold up the rest.
//!
//! Samples are bit patterns of single precision numbers. How two of them add
//! up is the caller's: `drain` takes the addition as an argument.
use std::collections::{HashMap, VecDeque};
use vstd::prelude::*;

use crate::audio::{bytes_as_f32, settle_format, AudioBuffer, ParamChange, MAX_SAMPLES};

verus! {

broadcast use {vstd::std_specs::hash::group_hash_axioms, vstd::group_vstd_default};

/// Nanoseconds after which a source that has not produced any samples is
/// dropped from the mix.
pub const STALE_AFTER: u64 = 500_000_000;

/// The bit pattern of the number zero.
pub const SILENCE: u32 = 0;

/// What became of a chunk that a stream delivered.
#[derive(Debug, Clone, Copy, PartialEq, Eq, Structural)]
pub enum Chunk {
    /// It holds nothing, or claims more than was mapped.
    Unusable,
    /// It is not aligned to samples.
    Misaligned,
    /// Its samples were pushed.
    Pushed,
}

/// What a source holds: the samples not yet drained, oldest first, and the
/// time of its last push.
#[verifier::ext_equal]
pub struct SourceView {
    pub queue: Seq<u32>,
    pub last_write: u64,
}

/// What a mixer holds.
#[verifier::ext_equal]
pub struct MixView {
    pub sources: Map<u32, SourceView>,
    pub channels: u32,
    pub sample_rate: u32,
}

struct SourceState {
    queue: VecDeque<u32>,
    last_write: u64,
}

impl View for SourceState {
    type V = SourceView;

    closed spec fn view(&self) -> SourceView {
        SourceView { queue: self.queue@, last_write: self.last_write }
    }
}

/// The mixer.
pub struct MixBuffer {
    sources: HashMap<u32, SourceState>,
    channels: u32,
    sample_rate: u32,
}

impl View for MixBuffer {
    type V = MixView;

    closed spec fn view(&self) -> MixView {
        MixView {
            sources: self.sources@.map_values(|s: SourceState| s@),
            channels: self.channels,
            sample_rate: self.sample_rate,
        }
    }
}

/// The newest `MAX_SAMPLES` samples of a queue.
pub open spec fn newest(queue: Seq<u32>) -> Seq<u32> {
    if queue.len() > MAX_SAMPLES {
        queue.skip(queue.len() - MAX_SAMPLES)
    } else {
        queue
    }
}

/// Whether a source has produced nothing for `STALE_AFTER`, at time `now`.
pub open spec fn stale(source: SourceView, now: u64) -> bool {
    now - source.last_write >= STALE_AFTER
}

/// The sources that are kept at time `now`: those that wrote recently.
pub open spec fn live_sources(sources: Map<u32, SourceView>, now: u64) -> Map<u32, SourceView> {
    sources.restrict(
        Set::new(|id: u32| sources.contains_key(id) && !stale(sources[id], now)),
    )
}

/// Whether the source `id` has samples.
pub open spec fn active(sources: Map<u32, SourceView>, id: u32) -> bool {
    sources.contains_key(id) && sources[id].queue.len() > 0
}

/// Whether `n` is the length of the shortest queue that has samples.
pub open spec fn is_shortest(sources: Map<u32, SourceView>, n: nat) -> bool {
    &&& exists|id: u32| #[trigger] active(sources, id) && sources[id].queue.len() == n
    &&& forall|id: u32| #[trigger] active(sources, id) ==> n <= sources[id].queue.len()
}

/// The source without its first `n` samples; a source that has none stays.
pub open spec fn without_first(source: SourceView, n: nat) -> SourceView {
    if source.queue.len() > 0 {
        SourceView { queue: source.queue.skip(n as int), last_write: source.last_write }
    } else {
        source
    }
}

/// The sources after `n` samples have been taken from each that has any.
pub open spec fn consumed(sources: Map<u32, SourceView>, n: nat) -> Map<u32, SourceView> {
    sources.map_values(|s: SourceView| without_first(s, n))
}

/// Whether `total` is what `plus` makes of `values`, added one after the other
/// to silence.
pub open spec fn sums_to<F: Fn(u32, u32) -> u32>(plus: F, values: Seq<u32>, total: u32) -> bool
    decreases values.len(),
{
    if values.len() == 0 {
        total == SILENCE
    } else {
        exists|before: u32|
            sums_to(plus, values.drop_last(), before) && #[trigger] call_ensures(
                plus,
                (before, values.last()),
                total,
            )
    }
}

/// Whether `order` lists each source that has samples once.
pub open spec fn lists_active(order: Seq<u32>, sources: Map<u32, SourceView>) -> bool {
    &&& order.no_duplicates()
    &&& forall|id: u32| #[trigger] order.contains(id) <==> active(sources, id)
}

/// The sample at position `i` of each source in `order`.
pub open spec fn column(sources: Map<u32, SourceView>, order: Seq<u32>, i: int) -> Seq<u32> {
    order.map_values(|id: u32| sources[id].queue[i])
}

/// Whether `data` is the mix of the sources that have samples, added in some order.
pub open spec fn is_mix<F: Fn(u32, u32) -> u32>(
    plus: F,
    sources: Map<u32, SourceView>,
    data: Seq<u32>,
) -> bool {
    exists|order: Seq<u32>| #[trigger]
        lists_active(order, sources) && forall|i: int|
            0 <= i < data.len() ==> sums_to(plus, column(sources, order, i), #[trigger] data[i])
}

/// What becomes of a chunk of `size` bytes, of which `mapped` are there,
/// from `address` on.
pub open spec fn chunk_kind(mapped: nat, size: nat, address: nat) -> Chunk {
    if size == 0 || size > mapped {
        Chunk::Unusable
    } else if address % 4 == 0 && size % 4 == 0 {
        Chunk::Pushed
    } else {
        Chunk::Misaligned
    }
}

impl MixView {
    /// No queue holds more than `MAX_SAMPLES`.
    pub open spec fn bounded(self) -> bool {
        forall|id: u32| #[trigger]
            self.sources.contains_key(id) ==> self.sources[id].queue.len() <= MAX_SAMPLES
    }

    /// The samples that `id` has waiting; none where it is no source.
    pub open spec fn queue(self, id: u32) -> Seq<u32> {
        if self.sources.contains_key(id) {
            self.sources[id].queue
        } else {
            Seq::empty()
        }
    }

    /// The mixer after `samples` came in from `id` at time `now`.
    pub open spec fn pushed(self, id: u32, samples: Seq<u32>, now: u64) -> MixView {
        if samples.len() == 0 {
            self
        } else {
            MixView {
                sources: self.sources.insert(
                    id,
                    SourceView { queue: newest(self.queue(id) + samples), last_write: now },
                ),
                ..self
            }
        }
    }
}

/// Appending adds exactly the appended element.
proof fn lemma_push_contains(s: Seq<u32>, x: u32)
    ensures
        forall|y: u32| #[trigger] s.push(x).contains(y) <==> s.contains(y) || y == x,
{
    assert forall|y: u32| #[trigger] s.push(x).contains(y) <==> s.contains(y) || y == x by {
        if s.contains(y) {
            let j = choose|j: int| 0 <= j < s.len() && s[j] == y;
            assert(s.push(x)[j] == y);
        }
        assert(s.push(x)[s.len() as int] == x);
    }
}

impl MixBuffer {
    /// An empty mixer, at 48 kHz stereo until told otherwise.
    pub fn new() -> (mix: MixBuffer)
        ensures
            mix@ == (MixView { sources: Map::empty(), channels: 2, sample_rate: 48000 }),
            mix@.bounded(),
    {
        let mix = MixBuffer { sources: HashMap::new(), channels: 2, sample_rate: 48000 };
        assert(mix@.sources =~= Map::empty());
        mix
    }

    /// Sets the format that drained buffers are labelled with.
    pub fn set_format(&mut self, channels: u32, sample_rate: u32)
        ensures
            final(self)@ == (MixView { channels, sample_rate, ..old(self)@ }),
    {
        self.channels = channels;
        self.sample_rate = sample_rate;
    }

    /// A parameter of a stream changed, or was cleared.
    pub fn on_param_changed(&mut self, change: Option<ParamChange>)
        ensures
            final(self)@ == match crate::audio::settled_format(change) {
                Some((channels, sample_rate)) => MixView { channels, sample_rate, ..old(self)@ },
                None => old(self)@,
            },
    {
        if let Some((channels, sample_rate)) = settle_format(change) {
            self.set_format(channels, sample_rate);
        }
    }

    /// Appends samples of one source, at time `now` in nanoseconds. Where the
    /// queue grows past `MAX_SAMPLES`, the oldest samples are dropped.
    pub fn push(&mut self, node_id: u32, samples: &[u32], now: u64)
        ensures
            final(self)@ == old(self)@.pushed(node_id, samples@, now),
            old(self)@.bounded() ==> final(self)@.bounded(),
    {
        if samples.is_empty() {
            return;
        }
        let ghost before = self@;
        let mut queue: VecDeque<u32> = match self.sources.remove(&node_id) {
            Some(source) => source.queue,
            None => VecDeque::with_capacity(MAX_SAMPLES / 4),
        };
        let ghost waiting = queue@;
        assert(waiting == before.queue(node_id));
        for i in 0..samples.len()
            invariant
                queue@ == waiting + samples@.take(i as int),
        {
            queue.push_back(samples[i]);
            assert(samples@.take(i + 1) == samples@.take(i as int).push(samples@[i as int]));
        }
        let ghost all = queue@;
        assert(samples@.take(samples@.len() as int) == samples@);
        while queue.len() > MAX_SAMPLES
            invariant
                queue@.len() <= all.len(),
                queue@ == all.skip(all.len() - queue@.len()),
                all.len() > MAX_SAMPLES ==> queue@.len() >= MAX_SAMPLES,
                all.len() <= MAX_SAMPLES ==> queue@ == all,
            decreases queue@.len(),
        {
            let _ = queue.pop_front();
        }
        assert(queue@ == newest(all));
        self.sources.insert(node_id, SourceState { queue, last_write: now });
        assert(self@.sources =~= before.pushed(node_id, samples@, now).sources);
    }

    /// Takes a chunk that the stream of `node_id` delivered at time `now`: the
    /// first `size` of the `mapped` bytes, which start at `address`.
    pub fn push_chunk(
        &mut self,
        node_id: u32,
        mapped: &[u8],
        size: usize,
        address: usize,
        now: u64,
    ) -> (chunk: Chunk)
        ensures
            chunk == chunk_kind(mapped@.len(), size as nat, address as nat),
            final(self)@ == if chunk is Pushed {
                old(self)@.pushed(node_id, crate::audio::words(mapped@.take(size as int)), now)
            } else {
                old(self)@
            },
            old(self)@.bounded() ==> final(self)@.bounded(),
    {
        if size == 0 || size > mapped.len() {
            return Chunk::Unusable;
        }
        let bytes = vstd::slice::slice_subrange(mapped, 0, size);
        match bytes_as_f32(bytes, address) {
            Some(samples) => {
                self.push(node_id, &samples, now);
                Chunk::Pushed
            },
            None => Chunk::Misaligned,
        }
    }

    /// Forgets a source and the samples it has waiting.
    pub fn remove_source(&mut self, node_id: u32)
        ensures
            final(self)@ == (MixView { sources: old(self)@.sources.remove(node_id), ..old(self)@ }),
            old(self)@.bounded() ==> final(self)@.bounded(),
    {
        let ghost before = self@;
        let _ = self.sources.remove(&node_id);
        assert(self@.sources =~= before.sources.remove(node_id));
    }

    /// The ids of the sources, each once.
    fn ids(&self) -> (ids: Vec<u32>)
        ensures
            ids@.no_duplicates(),
            forall|id: u32| #[trigger] ids@.contains(id) <==> self@.sources.contains_key(id),
    {
        let ghost all = vstd::std_specs::iter::IteratorSpec::remaining(
            &vstd::std_specs::hash::spec_keys_iter(&self.sources),
        ).unref();
        let mut ids: Vec<u32> = Vec::new();
        for id in keys: self.sources.keys()
            invariant
                keys.seq().unref() == all,
                ids@ == keys.seq().unref().take(keys.index()),
        {
            ids.push(*id);
            assert(keys.seq().unref().take(keys.index() + 1) == keys.seq().unref().take(
                keys.index(),
            ).push(*id));
        }
        assert(ids@ == all);
        assert forall|id: u32| #[trigger] ids@.contains(id) <==> self@.sources.contains_key(id) by {
            assert(all.to_set().contains(id) <==> self.sources@.contains_key(id));
        }
        ids
    }

    /// Drops the sources that have not produced samples for a while.
    fn prune(&mut self, now: u64)
        ensures
            final(self)@ == (MixView {
                sources: live_sources(old(self)@.sources, now),
                ..old(self)@
            }),
    {
        let ids = self.ids();
        let ghost before = self@;
        for i in 0..ids.len()
            invariant
                ids@.no_duplicates(),
                forall|id: u32| #[trigger] ids@.contains(id) <==> before.sources.contains_key(id),
                self@.channels == before.channels,
                self@.sample_rate == before.sample_rate,
                forall|id: u32| #[trigger]
                    self@.sources.contains_key(id) <==> before.sources.contains_key(id) && (
                    ids@.take(i as int).contains(id) ==> live_sources(
                        before.sources,
                        now,
                    ).contains_key(id)),
                forall|id: u32| #[trigger]
                    self@.sources.contains_key(id) ==> self@.sources[id] == before.sources[id],
        {
            let id: u32 = ids[i];
            assert(ids@.contains(id));
            assert(!ids@.take(i as int).contains(id));
            assert(ids@.take(i + 1) == ids@.take(i as int).push(id));
            proof {
                lemma_push_contains(ids@.take(i as int), id);
            }
            assert(self@.sources.contains_key(id));
            let keep = match self.sources.get(&id) {
                Some(source) => now < source.last_write || now - source.last_write < STALE_AFTER,
                None => true,
            };
            if !keep {
                self.remove_source(id);
            }
        }
        assert(ids@.take(ids@.len() as int) == ids@);
        assert(self@.sources =~= live_sources(before.sources, now));
    }

    /// The length of the shortest queue that has samples; 0 where none has.
    fn shortest(&self, ids: &Vec<u32>) -> (n: usize)
        requires
            forall|id: u32| #[trigger] ids@.contains(id) <==> self@.sources.contains_key(id),
        ensures
            n == 0 ==> forall|id: u32| !active(self@.sources, id),
            n > 0 ==> is_shortest(self@.sources, n as nat),
    {
        let mut n: usize = 0;
        for i in 0..ids.len()
            invariant
                forall|id: u32| #[trigger] ids@.contains(id) <==> self@.sources.contains_key(id),
                n == 0 ==> forall|j: int| 0 <= j < i ==> !active(self@.sources, #[trigger] ids@[j]),
                n > 0 ==> forall|j: int|
                    0 <= j < i && active(self@.sources, #[trigger] ids@[j]) ==> n
                        <= self@.sources[ids@[j]].queue.len(),
                n > 0 ==> exists|id: u32| #[trigger]
                    active(self@.sources, id) && self@.sources[id].queue.len() == n,
        {
            let id: u32 = ids[i];
            assert(ids@.contains(id));
            if let Some(source) = self.sources.get(&id) {
                let len: usize = source.queue.len();
                if len > 0 && (n == 0 || len < n) {
                    n = len;
                    assert(active(self@.sources, id) && self@.sources[id].queue.len() == n);
                }
            }
        }
        assert forall|id: u32| active(self@.sources, id) implies n > 0 && n
            <= self@.sources[id].queue.len() by {
            assert(ids@.contains(id));
        }
        n
    }

    /// Takes `n` samples from the front of the source `id` and adds them to
    /// `out`, which holds the sum of the sources in `order`.
    fn take_from<F: Fn(u32, u32) -> u32>(
        &mut self,
        id: u32,
        n: usize,
        out: &mut Vec<u32>,
        plus: &F,
        live: Ghost<Map<u32, SourceView>>,
        order: Ghost<Seq<u32>>,
    )
        requires
            forall|a: u32, b: u32| call_requires(*plus, (a, b)),
            old(self)@.sources.contains_key(id),
            old(self)@.sources[id] == live@[id],
            0 < n <= live@[id].queue.len(),
            old(out)@.len() == n,
            forall|i: int|
                0 <= i < n ==> sums_to(*plus, column(live@, order@, i), #[trigger] old(out)@[i]),
        ensures
            final(self)@ == (MixView {
                sources: old(self)@.sources.insert(id, without_first(live@[id], n as nat)),
                ..old(self)@
            }),
            final(out)@.len() == n,
            forall|i: int|
                0 <= i < n ==> sums_to(
                    *plus,
                    column(live@, order@.push(id), i),
                    #[trigger] final(out)@[i],
                ),
    {
        let ghost before = self@;
        let ghost waiting = live@[id].queue;
        let mut source = match self.sources.remove(&id) {
            Some(source) => source,
            None => {
                return ;
            },
        };
        assert(source@ == before.sources[id]);
        for i in 0..n
            invariant
                forall|a: u32, b: u32| call_requires(*plus, (a, b)),
                n <= waiting.len(),
                waiting == live@[id].queue,
                source.queue@ == waiting.skip(i as int),
                source.last_write == live@[id].last_write,
                out@.len() == n,
                forall|j: int|
                    0 <= j < i ==> sums_to(
                        *plus,
                        column(live@, order@.push(id), j),
                        #[trigger] out@[j],
                    ),
                forall|j: int|
                    i <= j < n ==> sums_to(*plus, column(live@, order@, j), #[trigger] out@[j]),
        {
            if let Some(sample) = source.queue.pop_front() {
                assert(sample == waiting[i as int]);
                let ghost total = out@[i as int];
                let sum: u32 = (*plus)(out[i], sample);
                assert(call_ensures(*plus, (total, sample), sum));
                let ghost old_column = column(live@, order@, i as int);
                let ghost new_column = column(live@, order@.push(id), i as int);
                assert(new_column =~= old_column.push(sample));
                assert(new_column.drop_last() =~= old_column);
                assert(sums_to(*plus, old_column, total));
                assert(new_column.last() == sample);
                assert(sums_to(*plus, new_column.drop_last(), total));
                assert(sums_to(*plus, new_column, sum));
                out[i] = sum;
            }
        }
        self.sources.insert(id, source);
        assert(self@.sources =~= before.sources.insert(id, without_first(live@[id], n as nat)));
    }

    /// Takes the largest prefix common to all sources that have samples, at
    /// time `now`, and adds the sources up with `plus`. `None` if no source
    /// has samples. Sources that have not produced any for `STALE_AFTER` are
    /// dropped first.
    pub fn drain<F: Fn(u32, u32) -> u32>(&mut self, now: u64, plus: F) -> (drained: Option<
        AudioBuffer,
    >)
        requires
            forall|a: u32, b: u32| call_requires(plus, (a, b)),
        ensures
            ({
                let live = live_sources(old(self)@.sources, now);
                match drained {
                    None => {
                        &&& forall|id: u32| !active(live, id)
                        &&& final(self)@ == (MixView { sources: live, ..old(self)@ })
                    },
                    Some(buffer) => {
                        &&& is_shortest(live, buffer.data@.len())
                        &&& is_mix(plus, live, buffer.data@)
                        &&& buffer.channels == old(self)@.channels
                        &&& buffer.sample_rate == old(self)@.sample_rate
                        &&& final(self)@ == (MixView {
                            sources: consumed(live, buffer.data@.len()),
                            ..old(self)@
                        })
                    },
                }
            }),
            old(self)@.bounded() ==> final(self)@.bounded(),
    {
        self.prune(now);
        let ghost live = self@.sources;
        let ghost pruned = self@;
        let ids = self.ids();
        let n: usize = self.shortest(&ids);
        if n == 0 {
            return None;
        }
        let mut out: Vec<u32> = vec![SILENCE; n];
        let ghost mut order: Seq<u32> = Seq::empty();
        for i in 0..ids.len()
            invariant
                forall|a: u32, b: u32| call_requires(plus, (a, b)),
                ids@.no_duplicates(),
                forall|id: u32| #[trigger] ids@.contains(id) <==> live.contains_key(id),
                n > 0,
                is_shortest(live, n as nat),
                out@.len() == n,
                order.no_duplicates(),
                forall|id: u32| #[trigger]
                    order.contains(id) <==> ids@.take(i as int).contains(id) && active(live, id),
                forall|j: int|
                    0 <= j < n ==> sums_to(plus, column(live, order, j), #[trigger] out@[j]),
                self@.channels == pruned.channels,
                self@.sample_rate == pruned.sample_rate,
                self@.sources.dom() == live.dom(),
                forall|id: u32| #[trigger]
                    live.contains_key(id) ==> self@.sources[id] == if ids@.take(
                        i as int,
                    ).contains(id) {
                        without_first(live[id], n as nat)
                    } else {
                        live[id]
                    },
        {
            let id: u32 = ids[i];
            let ghost seen = ids@.take(i as int);
            assert(ids@.contains(id));
            assert(live.contains_key(id));
            assert(!seen.contains(id));
            assert(ids@.take(i + 1) == seen.push(id));
            proof {
                lemma_push_contains(seen, id);
                lemma_push_contains(order, id);
            }
            let has_samples = match self.sources.get(&id) {
                Some(source) => source.queue.len() > 0,
                None => false,
            };
            if has_samples {
                assert(active(live, id));
                self.take_from(id, n, &mut out, &plus, Ghost(live), Ghost(order));
                proof {
                    assert(!order.contains(id));
                    assert(forall|j: int| 0 <= j < order.len() ==> order.contains(order[j]));
                    order = order.push(id);
                }
            }
        }
        assert(ids@.take(ids@.len() as int) == ids@);
        assert(self@.sources =~= consumed(live, n as nat));
        assert(lists_active(order, live));
        assert(old(self)@.bounded() ==> self@.bounded()) by {
            assert forall|id: u32|
                old(self)@.bounded() && #[trigger] self@.sources.contains_key(id) implies
                self@.sources[id].queue.len() <= MAX_SAMPLES by {
                assert(old(self)@.sources.contains_key(id));
                assert(live[id] == old(self)@.sources[id]);
                assert(active(live, id) ==> n <= live[id].queue.len());
            }
        }
        Some(AudioBuffer { channels: self.channels, sample_rate: self.sample_rate, data: out })
    }
}

/// A source that wrote recently keeps its samples until they are drained.
pub proof fn law_recent_sources_keep_their_samples(
    sources: Map<u32, SourceView>,
    id: u32,
    now: u64,
)
    requires
        sources.contains_key(id),
        !stale(sources[id], now),
    ensures
        live_sources(sources, now).contains_key(id),
        live_sources(sources, now)[id] == sources[id],
{
}

/// A source that has written nothing for `STALE_AFTER` is dropped by the next
/// drain, with what it has queued: what is drained is as if it had never been.
pub proof fn law_stale_sources_are_dropped(sources: Map<u32, SourceView>, id: u32, now: u64)
    requires
        sources.contains_key(id),
        stale(sources[id], now),
    ensures
        !live_sources(sources, now).contains_key(id),
        live_sources(sources, now) == live_sources(sources.remove(id), now),
{
    assert(live_sources(sources, now) =~= live_sources(sources.remove(id), now));
}

/// A source that has no samples holds up nothing: with it or
/// without it as many samples are drained, and the same mixes of them.
pub proof fn law_empty_source_holds_up_nothing<F: Fn(u32, u32) -> u32>(
    plus: F,
    sources: Map<u32, SourceView>,
    id: u32,
    idle: SourceView,
    n: nat,
    data: Seq<u32>,
)
    requires
        !sources.contains_key(id),
        idle.queue.len() == 0,
    ensures
        is_shortest(sources.insert(id, idle), n) == is_shortest(sources, n),
        is_mix(plus, sources.insert(id, idle), data) == is_mix(plus, sources, data),
{
    let with = sources.insert(id, idle);
    assert(forall|other: u32| #[trigger] active(with, other) == active(sources, other));
    assert(forall|other: u32| #[trigger] active(with, other) ==> with[other] == sources[other]);
    assert(forall|other: u32| #[trigger] active(sources, other) == active(with, other));
    if is_shortest(sources, n) {
        let short = choose|short: u32| #[trigger]
            active(sources, short) && sources[short].queue.len() == n;
        assert(active(with, short) && with[short].queue.len() == n);
    }
    if is_shortest(with, n) {
        let short = choose|short: u32| #[trigger]
            active(with, short) && with[short].queue.len() == n;
        assert(active(sources, short) && sources[short].queue.len() == n);
        assert(forall|other: u32| #[trigger]
            active(sources, other) ==> active(with, other) && with[other] == sources[other]);
    }
    if is_mix(plus, sources, data) {
        lemma_same_mix(plus, sources, with, data);
    }
    if is_mix(plus, with, data) {
        lemma_same_mix(plus, with, sources, data);
    }
}

/// What is a mix of some sources is one of others that have the same samples.
proof fn lemma_same_mix<F: Fn(u32, u32) -> u32>(
    plus: F,
    sources: Map<u32, SourceView>,
    others: Map<u32, SourceView>,
    data: Seq<u32>,
)
    requires
        forall|id: u32| #[trigger] active(sources, id) == active(others, id),
        forall|id: u32| #[trigger] active(sources, id) ==> sources[id] == others[id],
        is_mix(plus, sources, data),
    ensures
        is_mix(plus, others, data),
{
    let order = choose|order: Seq<u32>| #[trigger]
        lists_active(order, sources) && forall|i: int|
            0 <= i < data.len() ==> sums_to(plus, column(sources, order, i), #[trigger] data[i]);
    assert(lists_active(order, others));
    assert forall|i: int| 0 <= i < data.len() implies sums_to(
        plus,
        column(others, order, i),
        #[trigger] data[i],
    ) by {
        assert(forall|k: int| 0 <= k < order.len() ==> order.contains(#[trigger] order[k]));
        assert(column(others, order, i) =~= column(sources, order, i));
    }
}

/// A drain takes as many samples from the front of each source that has any,
/// and leaves the rest in order.
pub proof fn law_drain_keeps_the_rest(sources: Map<u32, SourceView>, id: u32, n: nat)
    requires
        active(sources, id),
        is_shortest(sources, n),
    ensures
        sources[id].queue == sources[id].queue.take(n as int) + consumed(sources, n)[id].queue,
{
    assert(sources[id].queue =~= sources[id].queue.take(n as int) + sources[id].queue.skip(
        n as int,
    ));
}

/// How a source's samples are cut into pushes does not matter.
pub proof fn law_pushes_join(
    mix: MixView,
    id: u32,
    first: Seq<u32>,
    earlier: u64,
    more: Seq<u32>,
    now: u64,
)
    requires
        more.len() > 0,
    ensures
        mix.pushed(id, first, earlier).pushed(id, more, now) == mix.pushed(id, first + more, now),
{
    let q = mix.queue(id);
    if first.len() == 0 {
        assert(first + more =~= more);
    } else {
        assert(newest(newest(q + first) + more) =~= newest(q + (first + more)));
    }
    assert(mix.pushed(id, first, earlier).pushed(id, more, now).sources =~= mix.pushed(
        id,
        first + more,
        now,
    ).sources);
}

/// Removing a source undoes every push to it.
pub proof fn law_remove_undoes_push(mix: MixView, id: u32, samples: Seq<u32>, now: u64)
    requires
        !mix.sources.contains_key(id),
    ensures
        mix.pushed(id, samples, now).sources.remove(id) == mix.sources,
{
    assert(mix.pushed(id, samples, now).sources.remove(id) =~= mix.sources);
}

/// With a single source a drain hands out all that was queued, each sample
/// added to silence.
pub proof fn law_single_source_passes_through<F: Fn(u32, u32) -> u32>(
    plus: F,
    sources: Map<u32, SourceView>,
    id: u32,
    data: Seq<u32>,
)
    requires
        active(sources, id),
        forall|other: u32| #[trigger] active(sources, other) ==> other == id,
        is_shortest(sources, data.len()),
        is_mix(plus, sources, data),
    ensures
        data.len() == sources[id].queue.len(),
        forall|i: int|
            0 <= i < data.len() ==> call_ensures(
                plus,
                (SILENCE, sources[id].queue[i]),
                #[trigger] data[i],
            ),
{
    let order = choose|order: Seq<u32>| #[trigger]
        lists_active(order, sources) && forall|i: int|
            0 <= i < data.len() ==> sums_to(plus, column(sources, order, i), #[trigger] data[i]);
    assert(order.contains(id));
    assert(order =~= seq![id]) by {
        assert forall|j: int| 0 <= j < order.len() implies order[j] == id by {
            assert(order.contains(order[j]));
        }
        if order.len() >= 2 {
            assert(order[0] == order[1]);
        }
    }
    assert forall|i: int| 0 <= i < data.len() implies call_ensures(
        plus,
        (SILENCE, sources[id].queue[i]),
        #[trigger] data[i],
    ) by {
        let c = column(sources, order, i);
        assert(c =~= seq![sources[id].queue[i]]);
        assert(sums_to(plus, c, data[i]));
        let before = choose|before: u32|
            sums_to(plus, c.drop_last(), before) && #[trigger] call_ensures(
                plus,
                (before, c.last()),
                data[i],
            );
        assert(before == SILENCE);
    }
}

/// What happens to a mixer that has a single source.
pub enum SourceEvent {
    /// Samples came in, at a time.
    Pushed(Seq<u32>, u64),
    /// The mixer was drained, at a time, and gave these samples, if any.
    Drained(u64, Seq<u32>),
}

/// Whether a mixer whose only source is `id` may go from `before` to `after`
/// by `event`.
pub open spec fn source_step<F: Fn(u32, u32) -> u32>(
    plus: F,
    id: u32,
    before: MixView,
    event: SourceEvent,
    after: MixView,
) -> bool {
    match event {
        SourceEvent::Pushed(samples, now) => after == before.pushed(id, samples, now),
        SourceEvent::Drained(now, data) => {
            let live = live_sources(before.sources, now);
            if data.len() == 0 {
                &&& forall|other: u32| !active(live, other)
                &&& after == (MixView { sources: live, ..before })
            } else {
                &&& is_shortest(live, data.len())
                &&& is_mix(plus, live, data)
                &&& after == (MixView { sources: consumed(live, data.len()), ..before })
            }
        },
    }
}

/// Whether `event` loses no samples: the queue has room for what comes in, and
/// is not drained too late.
pub open spec fn in_time(id: u32, before: MixView, event: SourceEvent) -> bool {
    match event {
        SourceEvent::Pushed(samples, _) => before.queue(id).len() + samples.len() <= MAX_SAMPLES,
        SourceEvent::Drained(now, _) => before.queue(id).len() == 0 || !stale(
            before.sources[id],
            now,
        ),
    }
}

/// All that came in, in order.
pub open spec fn all_pushed(events: Seq<SourceEvent>) -> Seq<u32>
    decreases events.len(),
{
    if events.len() == 0 {
        Seq::empty()
    } else {
        match events.last() {
            SourceEvent::Pushed(samples, _) => all_pushed(events.drop_last()) + samples,
            SourceEvent::Drained(..) => all_pushed(events.drop_last()),
        }
    }
}

/// All that was handed out, in order.
pub open spec fn all_drained(events: Seq<SourceEvent>) -> Seq<u32>
    decreases events.len(),
{
    if events.len() == 0 {
        Seq::empty()
    } else {
        match events.last() {
            SourceEvent::Pushed(..) => all_drained(events.drop_last()),
            SourceEvent::Drained(_, data) => all_drained(events.drop_last()) + data,
        }
    }
}

/// Over any run of pushes and drains of a single source that loses nothing,
/// what is handed out is what came in, in order and each sample once, added to
/// silence, and what has not been handed out waits.
pub proof fn law_single_source_is_a_queue<F: Fn(u32, u32) -> u32>(
    plus: F,
    id: u32,
    states: Seq<MixView>,
    events: Seq<SourceEvent>,
)
    requires
        states.len() == events.len() + 1,
        states[0].sources == Map::<u32, SourceView>::empty(),
        forall|k: int|
            0 <= k < events.len() ==> source_step(
                plus,
                id,
                states[k],
                #[trigger] events[k],
                states[k + 1],
            ) && in_time(id, states[k], events[k]),
    ensures
        ({
            let (pushed, drained) = (all_pushed(events), all_drained(events));
            &&& drained.len() <= pushed.len()
            &&& states.last().queue(id) == pushed.skip(drained.len() as int)
            &&& forall|i: int|
                0 <= i < drained.len() ==> call_ensures(
                    plus,
                    (SILENCE, pushed[i]),
                    #[trigger] drained[i],
                )
            &&& forall|other: u32| #[trigger]
                states.last().sources.contains_key(other) ==> other == id
        }),
    decreases events.len(),
{
    if events.len() == 0 {
        assert(states.last().queue(id) =~= all_pushed(events).skip(0));
    } else {
        let n = events.len() - 1;
        let (fewer_states, fewer) = (states.drop_last(), events.drop_last());
        assert forall|k: int| 0 <= k < fewer.len() implies source_step(
            plus,
            id,
            fewer_states[k],
            #[trigger] fewer[k],
            fewer_states[k + 1],
        ) && in_time(id, fewer_states[k], fewer[k]) by {
            assert(fewer[k] == events[k]);
        }
        law_single_source_is_a_queue(plus, id, fewer_states, fewer);
        let before = states[n];
        assert(fewer_states.last() == before);
        assert(source_step(plus, id, before, events[n], states[n + 1]) && in_time(
            id,
            before,
            events[n],
        ));
        lemma_queue_step(
            plus,
            id,
            before,
            events[n],
            states[n + 1],
            all_pushed(fewer),
            all_drained(fewer),
            all_pushed(events),
            all_drained(events),
        );
    }
}

/// One event keeps what is handed out in step with what came in.
proof fn lemma_queue_step<F: Fn(u32, u32) -> u32>(
    plus: F,
    id: u32,
    before: MixView,
    event: SourceEvent,
    after: MixView,
    pushed: Seq<u32>,
    drained: Seq<u32>,
    more_pushed: Seq<u32>,
    more_drained: Seq<u32>,
)
    requires
        source_step(plus, id, before, event, after),
        in_time(id, before, event),
        drained.len() <= pushed.len(),
        before.queue(id) == pushed.skip(drained.len() as int),
        forall|other: u32| #[trigger] before.sources.contains_key(other) ==> other == id,
        forall|i: int|
            0 <= i < drained.len() ==> call_ensures(
                plus,
                (SILENCE, pushed[i]),
                #[trigger] drained[i],
            ),
        match event {
            SourceEvent::Pushed(samples, _) => more_pushed == pushed + samples && more_drained
                == drained,
            SourceEvent::Drained(_, data) => more_pushed == pushed && more_drained == drained
                + data,
        },
    ensures
        more_drained.len() <= more_pushed.len(),
        after.queue(id) == more_pushed.skip(more_drained.len() as int),
        forall|i: int|
            0 <= i < more_drained.len() ==> call_ensures(
                plus,
                (SILENCE, more_pushed[i]),
                #[trigger] more_drained[i],
            ),
        forall|other: u32| #[trigger] after.sources.contains_key(other) ==> other == id,
{
    match event {
        SourceEvent::Pushed(samples, _) => {
            assert(after.queue(id) =~= before.queue(id) + samples);
            assert(after.queue(id) =~= more_pushed.skip(drained.len() as int));
        },
        SourceEvent::Drained(now, data) => {
            let live = live_sources(before.sources, now);
            if data.len() == 0 {
                assert(!active(live, id));
                assert(before.queue(id).len() == 0);
                assert(after.queue(id) =~= more_pushed.skip(more_drained.len() as int));
            } else {
                let short = choose|short: u32| #[trigger]
                    active(live, short) && live[short].queue.len() == data.len();
                assert(before.sources.contains_key(short));
                assert(active(live, id));
                law_single_source_passes_through(plus, live, id, data);
                assert(live[id] == before.sources[id]);
                assert(after.queue(id) =~= more_pushed.skip(more_drained.len() as int));
                assert forall|i: int| 0 <= i < more_drained.len() implies call_ensures(
                    plus,
                    (SILENCE, more_pushed[i]),
                    #[trigger] more_drained[i],
                ) by {
                    let at = i - drained.len();
                    if at >= 0 {
                        assert(more_drained[i] == data[at]);
                        assert(more_pushed[i] == live[id].queue[at]);
                    } else {
                        assert(more_drained[i] == drained[i]);
                    }
                }
            }
        },
    }
}

/// A push leaves every other source as it was. Samples, if there are any, are
/// put behind what the source has waiting, of which the oldest give way where
/// there are more than two seconds' worth.
pub proof fn law_push_appends(mix: &mut MixBuffer, node_id: u32, samples: &[u32], now: u64)
    requires
        call_ensures(MixBuffer::push, (mix, node_id, samples, now), ()),
    ensures
        samples@.len() == 0 ==> final(mix)@ == old(mix)@,
        final(mix)@.channels == old(mix)@.channels,
        final(mix)@.sample_rate == old(mix)@.sample_rate,
        forall|other: u32|
            other != node_id ==> (#[trigger] final(mix)@.sources.contains_key(other) <==> old(mix)@.sources.contains_key(other)),
        forall|other: u32|
            other != node_id && #[trigger] final(mix)@.sources.contains_key(other) ==> final(mix)@.sources[other] == old(mix)@.sources[other],
        samples@.len() > 0 ==> {
            let waiting = if old(mix)@.sources.contains_key(node_id) {
                old(mix)@.sources[node_id].queue
            } else {
                Seq::empty()
            };
            let all = waiting + samples@;
            let queue = final(mix)@.sources[node_id].queue;
            &&& final(mix)@.sources.contains_key(node_id)
            &&& final(mix)@.sources[node_id].last_write == now
            &&& queue.len() == if all.len() <= 192000 {
                all.len() as int
            } else {
                192000
            }
            &&& queue == all.skip(all.len() - queue.len())
        },
{
    if samples@.len() > 0 {
        let all = old(mix)@.queue(node_id) + samples@;
        assert(all.skip(0) =~= all);
    }
}

/// A chunk that holds something, and no more than was mapped, and is aligned,
/// is pushed as the numbers that its bytes make up; no other chunk changes
/// anything.
pub proof fn law_usable_chunks_are_pushed(
    mix: &mut MixBuffer,
    node_id: u32,
    mapped: &[u8],
    size: usize,
    address: usize,
    now: u64,
    chunk: Chunk,
)
    requires
        call_ensures(MixBuffer::push_chunk, (mix, node_id, mapped, size, address, now), chunk),
    ensures
        chunk is Unusable <==> size == 0 || size > mapped@.len(),
        final(mix)@.channels == old(mix)@.channels,
        final(mix)@.sample_rate == old(mix)@.sample_rate,
        chunk is Pushed <==> 0 < size <= mapped@.len() && address % 4 == 0 && size % 4 == 0,
        !(chunk is Pushed) ==> final(mix)@ == old(mix)@,
        chunk is Pushed ==> {
            let waiting = if old(mix)@.sources.contains_key(node_id) {
                old(mix)@.sources[node_id].queue
            } else {
                Seq::empty()
            };
            let queue = final(mix)@.sources[node_id].queue;
            &&& final(mix)@.sources.contains_key(node_id)
            &&& final(mix)@.sources[node_id].last_write == now
            &&& waiting.len() + size / 4 <= 192000 ==> queue.len() == waiting.len() + size
                / 4 && queue.take(waiting.len() as int) == waiting
            &&& forall|i: int|
                0 <= i < size / 4 && i < queue.len() ==> {
                    let at = size - 4 * (i + 1);
                    #[trigger] queue[queue.len() - 1 - i] == mapped@[at] + mapped@[at + 1] * 256
                        + mapped@[at + 2] * 65536 + mapped@[at + 3] * 16777216
                }
        },
        forall|other: u32|
            other != node_id ==> (#[trigger] final(mix)@.sources.contains_key(other) <==> old(mix)@.sources.contains_key(other)),
        forall|other: u32|
            other != node_id && #[trigger] final(mix)@.sources.contains_key(other) ==> final(mix)@.sources[other] == old(mix)@.sources[other],
{
    if chunk is Pushed {
        let waiting = old(mix)@.queue(node_id);
        let samples = crate::audio::words(mapped@.take(size as int));
        let queue = final(mix)@.sources[node_id].queue;
        assert(samples.len() == size / 4);
        assert(queue == newest(waiting + samples));
        if waiting.len() + samples.len() <= MAX_SAMPLES {
            assert(queue.take(waiting.len() as int) =~= waiting);
        }
        assert forall|i: int| 0 <= i < size / 4 && i < queue.len() implies ({
            let at = size - 4 * (i + 1);
            #[trigger] queue[queue.len() - 1 - i] == mapped@[at] + mapped@[at + 1] * 256
                + mapped@[at + 2] * 65536 + mapped@[at + 3] * 16777216
        }) by {
            let k = samples.len() - 1 - i;
            assert(queue[queue.len() - 1 - i] == samples[k]);
            assert(4 * k == size - 4 * (i + 1));
        }
    }
}

/// A source survives a drain if and only if its last push is less than half a
/// second back. A drain gives nothing if and only if no such source has
/// samples.
pub proof fn law_recent_samples_are_drained<F: Fn(u32, u32) -> u32>(
    mix: &mut MixBuffer,
    now: u64,
    plus: F,
    drained: Option<AudioBuffer>,
)
    requires
        call_ensures(MixBuffer::drain::<F>, (mix, now, plus), drained),
    ensures
        forall|id: u32| #[trigger]
            final(mix)@.sources.contains_key(id) <==> old(mix)@.sources.contains_key(id) && now
                < old(mix)@.sources[id].last_write + 500_000_000,
        drained is Some <==> exists|id: u32| #[trigger]
            old(mix)@.sources.contains_key(id) && now < old(mix)@.sources[id].last_write
                + 500_000_000 && old(mix)@.sources[id].queue.len() > 0,
{
    let live = live_sources(old(mix)@.sources, now);
    assert(forall|id: u32| #[trigger]
        live.contains_key(id) <==> old(mix)@.sources.contains_key(id) && now < old(mix)@.sources[id].last_write + 500_000_000);
    match drained {
        Some(buffer) => {
            let id = choose|id: u32| #[trigger]
                active(live, id) && live[id].queue.len() == buffer.data@.len();
            assert(old(mix)@.sources.contains_key(id));
        },
        None => {
            assert forall|id: u32| #[trigger]
                old(mix)@.sources.contains_key(id) && now < old(mix)@.sources[id].last_write
                    + 500_000_000 implies old(mix)@.sources[id].queue.len() == 0 by {
                assert(!active(live, id));
            }
        },
    }
}

/// A drain takes as many samples as the shortest source has that has any, from
/// the front of each source that has any, leaves the rest and the times as
/// they were, and labels what it gives with the format.
pub proof fn law_drain_takes_from_the_front<F: Fn(u32, u32) -> u32>(
    mix: &mut MixBuffer,
    now: u64,
    plus: F,
    drained: Option<AudioBuffer>,
    id: u32,
)
    requires
        call_ensures(MixBuffer::drain::<F>, (mix, now, plus), drained),
        final(mix)@.sources.contains_key(id),
    ensures
        ({
            let (before, after) = (old(mix)@.sources[id], final(mix)@.sources[id]);
            &&& old(mix)@.sources.contains_key(id)
            &&& after.last_write == before.last_write
            &&& drained is None ==> after == before
            &&& drained matches Some(buffer) ==> {
                &&& 0 < buffer.data@.len()
                &&& before.queue.len() == 0 ==> after == before
                &&& before.queue.len() > 0 ==> buffer.data@.len() <= before.queue.len()
                    && after.queue == before.queue.skip(buffer.data@.len() as int)
                &&& exists|short: u32| #[trigger]
                    final(mix)@.sources.contains_key(short) && old(mix)@.sources[short].queue.len() == buffer.data@.len()
                &&& buffer.channels == old(mix)@.channels
                &&& buffer.sample_rate == old(mix)@.sample_rate
            }
            &&& final(mix)@.channels == old(mix)@.channels
            &&& final(mix)@.sample_rate == old(mix)@.sample_rate
        }),
{
    let live = live_sources(old(mix)@.sources, now);
    assert(live.contains_key(id));
    assert(live[id] == old(mix)@.sources[id]);
    if let Some(buffer) = drained {
        let short = choose|short: u32| #[trigger]
            active(live, short) && live[short].queue.len() == buffer.data@.len();
        assert(final(mix)@.sources.contains_key(short));
        if live[id].queue.len() > 0 {
            assert(active(live, id));
        }
    }
}

/// Whether `total` is reached from zero by adding `values` one after the other:
/// through partial sums, each of which `plus` makes of the one before and the
/// next value.
pub open spec fn reached_by_adding<F: Fn(u32, u32) -> u32>(
    plus: F,
    values: Seq<u32>,
    total: u32,
) -> bool {
    exists|sums: Seq<u32>| #[trigger]
        sums.len() == values.len() + 1 && sums[0] == 0 && sums.last() == total && forall|k: int|
            0 <= k < values.len() ==> call_ensures(
                plus,
                (#[trigger] sums[k], values[k]),
                sums[k + 1],
            )
}

proof fn lemma_partial_sums<F: Fn(u32, u32) -> u32>(plus: F, values: Seq<u32>, total: u32)
    requires
        sums_to(plus, values, total),
    ensures
        reached_by_adding(plus, values, total),
    decreases values.len(),
{
    if values.len() == 0 {
        let sums = seq![0u32];
        assert(sums.len() == values.len() + 1 && sums[0] == 0);
    } else {
        let shorter = values.drop_last();
        let before = choose|before: u32|
            sums_to(plus, shorter, before) && #[trigger] call_ensures(
                plus,
                (before, values.last()),
                total,
            );
        lemma_partial_sums(plus, shorter, before);
        let fewer = choose|sums: Seq<u32>| #[trigger]
            sums.len() == shorter.len() + 1 && sums[0] == 0 && sums.last() == before && forall|
                k: int,
            |
                0 <= k < shorter.len() ==> call_ensures(
                    plus,
                    (#[trigger] sums[k], shorter[k]),
                    sums[k + 1],
                );
        let sums = fewer.push(total);
        assert forall|k: int| 0 <= k < values.len() implies call_ensures(
            plus,
            (#[trigger] sums[k], values[k]),
            sums[k + 1],
        ) by {
            if k < shorter.len() {
                assert(sums[k] == fewer[k] && sums[k + 1] == fewer[k + 1]);
                assert(values[k] == shorter[k]);
            }
        }
        assert(sums.len() == values.len() + 1);
    }
}

/// Each sample that a drain gives is the sum, from zero on, of the samples at
/// its place in all sources that are recent and have any, each source once.
pub proof fn law_drained_samples_are_sums<F: Fn(u32, u32) -> u32>(
    mix: &mut MixBuffer,
    now: u64,
    plus: F,
    drained: Option<AudioBuffer>,
)
    requires
        call_ensures(MixBuffer::drain::<F>, (mix, now, plus), drained),
        drained is Some,
    ensures
        exists|order: Seq<u32>|
            {
                &&& #[trigger] order.no_duplicates()
                &&& forall|id: u32| #[trigger]
                    order.contains(id) <==> old(mix)@.sources.contains_key(id) && now < old(mix)@.sources[id].last_write + 500_000_000 && old(mix)@.sources[id].queue.len()
                        > 0
                &&& forall|i: int|
                    0 <= i < drained->0.data@.len() ==> reached_by_adding(
                        plus,
                        Seq::new(order.len(), |k: int| old(mix)@.sources[order[k]].queue[i]),
                        #[trigger] drained->0.data@[i],
                    )
            },
{
    let live = live_sources(old(mix)@.sources, now);
    let data = drained->0.data@;
    let order = choose|order: Seq<u32>| #[trigger]
        lists_active(order, live) && forall|i: int|
            0 <= i < data.len() ==> sums_to(plus, column(live, order, i), #[trigger] data[i]);
    assert forall|id: u32| #[trigger] order.contains(id) <==> old(mix)@.sources.contains_key(id)
        && now < old(mix)@.sources[id].last_write + 500_000_000 && old(mix)@.sources[id].queue.len()
        > 0 by {
        assert(order.contains(id) <==> active(live, id));
    }
    assert forall|i: int| 0 <= i < drained->0.data@.len() implies reached_by_adding(
        plus,
        Seq::new(order.len(), |k: int| old(mix)@.sources[order[k]].queue[i]),
        #[trigger] drained->0.data@[i],
    ) by {
        lemma_partial_sums(plus, column(live, order, i), data[i]);
        assert forall|k: int| 0 <= k < order.len() implies column(live, order, i)[k] == old(mix)@.sources[order[k]].queue[i] by {
            assert(order.contains(order[k]));
        }
        assert(column(live, order, i) =~= Seq::new(
            order.len(),
            |k: int| old(mix)@.sources[order[k]].queue[i],
        ));
    }
    assert(order.no_duplicates());
}

/// The format is set as given, and no source is touched.
pub proof fn law_format_is_set_as_given(mix: &mut MixBuffer, channels: u32, sample_rate: u32)
    requires
        call_ensures(MixBuffer::set_format, (mix, channels, sample_rate), ()),
    ensures
        final(mix)@.channels == channels,
        final(mix)@.sample_rate == sample_rate,
        final(mix)@.sources == old(mix)@.sources,
{
}

/// A source that is removed is gone, and no other is touched.
pub proof fn law_only_the_removed_source_goes(mix: &mut MixBuffer, node_id: u32, other: u32)
    requires
        call_ensures(MixBuffer::remove_source, (mix, node_id), ()),
    ensures
        !final(mix)@.sources.contains_key(node_id),
        other != node_id ==> (final(mix)@.sources.contains_key(other) <==> old(mix)@.sources.contains_key(other)) && (old(mix)@.sources.contains_key(other) ==> final(mix)@.sources[other] == old(mix)@.sources[other]),
        final(mix)@.channels == old(mix)@.channels,
        final(mix)@.sample_rate == old(mix)@.sample_rate,
{
}

/// A change of the format that could be read, and is not known to be anything
/// but raw audio, becomes the mixer's; no other change touches anything.
pub proof fn law_readable_format_is_taken(mix: &mut MixBuffer, change: Option<ParamChange>)
    requires
        call_ensures(MixBuffer::on_param_changed, (mix, change), ()),
    ensures
        final(mix)@.sources == old(mix)@.sources,
        if change is Some && change->0.is_format && change->0.raw_audio != Some(false)
            && change->0.audio is Some {
            change->0.audio == Some((final(mix)@.channels, final(mix)@.sample_rate))
        } else {
            final(mix)@ == old(mix)@
        },
{
}

/// A new mixer has no sources, and is at 48 kHz stereo.
pub proof fn law_new_mixer_is_empty(mix: MixBuffer, id: u32)
    requires
        call_ensures(MixBuffer::new, (), mix),
    ensures
        !mix@.sources.contains_key(id),
        mix@.channels == 2,
        mix@.sample_rate == 48000,
{
}

} // verus!

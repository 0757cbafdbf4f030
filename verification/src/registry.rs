//! What the PipeWire registry tells of the objects in the graph.
use vstd::hash_map::StringHashMap;
use vstd::prelude::*;

use crate::text;

verus! {

/// Property of a node: what it does with which media.
pub const MEDIA_CLASS: &'static str = "media.class";

/// The media class of a stream that plays audio.
pub const OUTPUT_AUDIO: &'static str = "Stream/Output/Audio";

/// Property of a node: the name of its application.
pub const APPLICATION_NAME: &'static str = "application.name";

/// Property of a node: the binary of its application.
pub const APPLICATION_BINARY: &'static str = "application.process.binary";

/// A property dictionary as it was delivered: pairs of key and value, in
/// order. A key may occur more than once.
#[derive(Debug)]
pub struct Dict {
    pub entries: Vec<(String, String)>,
}

/// The pairs of key and value that a dictionary holds.
pub type DictView = Seq<(Seq<char>, Seq<char>)>;

impl View for Dict {
    type V = DictView;

    open spec fn view(&self) -> DictView {
        self.entries@.map_values(|e: (String, String)| (e.0@, e.1@))
    }
}

/// The value of the first pair with `key`.
pub open spec fn first_value(dict: DictView, key: Seq<char>) -> Option<Seq<char>>
    decreases dict.len(),
{
    if dict.len() == 0 {
        None
    } else if dict[0].0 == key {
        Some(dict[0].1)
    } else {
        first_value(dict.drop_first(), key)
    }
}

/// The map that results where each pair overrides the pairs before it.
pub open spec fn as_map(dict: DictView) -> Map<Seq<char>, Seq<char>>
    decreases dict.len(),
{
    if dict.len() == 0 {
        Map::empty()
    } else {
        as_map(dict.drop_last()).insert(dict.last().0, dict.last().1)
    }
}

impl Dict {
    /// The value of the first pair with `key`.
    pub fn get(&self, key: &str) -> (value: Option<&String>)
        ensures
            value is Some <==> first_value(self@, key@) is Some,
            value matches Some(value) ==> first_value(self@, key@) == Some(value@),
    {
        assert(self@.skip(0) == self@);
        for i in 0..self.entries.len()
            invariant
                first_value(self@, key@) == first_value(self@.skip(i as int), key@),
        {
            assert(self@.skip(i as int)[0] == self@[i as int]);
            assert(self@.skip(i as int).drop_first() == self@.skip(i + 1));
            if text::same(&self.entries[i].0, key) {
                return Some(&self.entries[i].1);
            }
        }
        None
    }

    /// Whether the first pair with `key` has the value `expected`.
    pub fn has(&self, key: &str, expected: &str) -> (r: bool)
        ensures
            r == (first_value(self@, key@) == Some(expected@)),
    {
        match self.get(key) {
            Some(value) => text::same(value, expected),
            None => false,
        }
    }
}

/// The properties of a node, one value for each key.
pub struct PropMap {
    values: StringHashMap<String>,
}

impl View for PropMap {
    type V = Map<Seq<char>, Seq<char>>;

    closed spec fn view(&self) -> Map<Seq<char>, Seq<char>> {
        self.values@.map_values(|v: String| v@)
    }
}

impl PropMap {
    /// The value of `key`.
    pub fn get(&self, key: &str) -> (value: Option<&String>)
        ensures
            value is Some <==> self@.contains_key(key@),
            value matches Some(value) ==> value@ == self@[key@],
    {
        self.values.get(key)
    }
}

/// Copies a dictionary into a map; of several pairs with one key the last one counts.
pub fn dict_to_map(dict: &Dict) -> (map: PropMap)
    ensures
        map@ == as_map(dict@),
{
    let mut map = PropMap { values: StringHashMap::new() };
    assert(map@ =~= Map::empty());
    for i in 0..dict.entries.len()
        invariant
            map@ == as_map(dict@.take(i as int)),
    {
        let ghost before = map@;
        let (key, value) = (dict.entries[i].0.clone(), dict.entries[i].1.clone());
        let ghost pair = (key@, value@);
        map.values.insert(key, value);
        assert(map@ =~= before.insert(pair.0, pair.1));
        assert(dict@.take(i + 1).drop_last() == dict@.take(i as int));
    }
    assert(dict@.take(dict@.len() as int) == dict@);
    map
}

/// The kind of an object in the graph.
#[derive(Debug, Clone, Copy, PartialEq, Eq, Structural)]
pub enum ObjectType {
    Node,
    Other,
}

/// An object that the registry announced.
#[derive(Debug)]
pub struct Global {
    pub id: u32,
    pub type_: ObjectType,
    pub props: Option<Dict>,
}

impl Global {
    /// Whether this is a node with properties: all else is of no interest.
    pub open spec fn is_node(self) -> bool {
        self.type_ == ObjectType::Node && self.props is Some
    }

    /// Whether this is a stream that plays audio.
    pub open spec fn plays_audio(self) -> bool {
        self.is_node() && first_value(self.props->0@, MEDIA_CLASS@) == Some(OUTPUT_AUDIO@)
    }

    /// The properties, if this is a node that has any.
    pub fn node_props(&self) -> (props: Option<&Dict>)
        ensures
            props is Some <==> self.is_node(),
            props matches Some(props) ==> Some(*props) == self.props,
    {
        if self.type_ == ObjectType::Node {
            self.props.as_ref()
        } else {
            None
        }
    }

    /// The properties, if this is a stream that plays audio.
    pub fn audio_props(&self) -> (props: Option<&Dict>)
        ensures
            props is Some <==> self.plays_audio(),
            props matches Some(props) ==> Some(*props) == self.props,
    {
        match self.node_props() {
            Some(props) => if props.has(MEDIA_CLASS, OUTPUT_AUDIO) {
                Some(props)
            } else {
                None
            },
            None => None,
        }
    }
}

/// The first pair with a key, and no earlier one, decides the first value.
proof fn lemma_first_value_at(dict: DictView, i: int)
    requires
        0 <= i < dict.len(),
        forall|j: int| 0 <= j < i ==> (#[trigger] dict[j]).0 != dict[i].0,
    ensures
        first_value(dict, dict[i].0) == Some(dict[i].1),
    decreases dict.len(),
{
    if i > 0 {
        let rest = dict.drop_first();
        assert(dict[0].0 != dict[i].0);
        assert forall|j: int| 0 <= j < i - 1 implies (#[trigger] rest[j]).0 != rest[i - 1].0 by {
            assert(rest[j] == dict[j + 1]);
        }
        lemma_first_value_at(rest, i - 1);
    }
}

/// A key that occurs has a first value.
proof fn lemma_first_value_exists(dict: DictView, key: Seq<char>)
    ensures
        first_value(dict, key) is Some <==> exists|i: int|
            0 <= i < dict.len() && (#[trigger] dict[i]).0 == key,
    decreases dict.len(),
{
    if dict.len() > 0 {
        let rest = dict.drop_first();
        lemma_first_value_exists(rest, key);
        if exists|i: int| 0 <= i < rest.len() && (#[trigger] rest[i]).0 == key {
            let i = choose|i: int| 0 <= i < rest.len() && (#[trigger] rest[i]).0 == key;
            assert(dict[i + 1].0 == key);
        }
        if exists|i: int| 0 <= i < dict.len() && (#[trigger] dict[i]).0 == key {
            let i = choose|i: int| 0 <= i < dict.len() && (#[trigger] dict[i]).0 == key;
            if i > 0 {
                assert(rest[i - 1].0 == key);
            }
        }
    }
}

/// The last pair with a key decides its value in the map.
proof fn lemma_as_map_at(dict: DictView, i: int)
    requires
        0 <= i < dict.len(),
        forall|j: int| i < j < dict.len() ==> (#[trigger] dict[j]).0 != dict[i].0,
    ensures
        as_map(dict).contains_key(dict[i].0),
        as_map(dict)[dict[i].0] == dict[i].1,
    decreases dict.len(),
{
    if i < dict.len() - 1 {
        let rest = dict.drop_last();
        assert(dict[dict.len() - 1].0 != dict[i].0);
        lemma_as_map_at(rest, i);
    }
}

/// A key that does not occur is not in the map.
proof fn lemma_as_map_lacks(dict: DictView, key: Seq<char>)
    requires
        forall|i: int| 0 <= i < dict.len() ==> (#[trigger] dict[i]).0 != key,
    ensures
        !as_map(dict).contains_key(key),
    decreases dict.len(),
{
    if dict.len() > 0 {
        lemma_as_map_lacks(dict.drop_last(), key);
    }
}

/// A dictionary in which no key is repeated reads the same from its pairs and
/// from its map.
pub proof fn law_map_agrees_with_pairs(dict: DictView, key: Seq<char>)
    requires
        forall|i: int, j: int|
            0 <= i < j < dict.len() ==> (#[trigger] dict[i]).0 != (#[trigger] dict[j]).0,
    ensures
        first_value(dict, key) is Some <==> as_map(dict).contains_key(key),
        first_value(dict, key) matches Some(value) ==> as_map(dict)[key] == value,
{
    lemma_first_value_exists(dict, key);
    if exists|i: int| 0 <= i < dict.len() && (#[trigger] dict[i]).0 == key {
        let i = choose|i: int| 0 <= i < dict.len() && (#[trigger] dict[i]).0 == key;
        lemma_first_value_at(dict, i);
        lemma_as_map_at(dict, i);
    } else {
        lemma_as_map_lacks(dict, key);
    }
}

/// Where the first value stands: behind the first pair with the key.
proof fn lemma_first_value_is_first(dict: DictView, key: Seq<char>)
    ensures
        match first_value(dict, key) {
            Some(value) => exists|i: int|
                0 <= i < dict.len() && #[trigger] dict[i] == (key, value) && forall|j: int|
                    0 <= j < i ==> (#[trigger] dict[j]).0 != key,
            None => forall|i: int| 0 <= i < dict.len() ==> (#[trigger] dict[i]).0 != key,
        },
    decreases dict.len(),
{
    if dict.len() > 0 {
        let rest = dict.drop_first();
        if dict[0].0 == key {
            assert(dict[0] == (key, dict[0].1));
        } else {
            lemma_first_value_is_first(rest, key);
            match first_value(rest, key) {
                Some(value) => {
                    let i = choose|i: int|
                        0 <= i < rest.len() && #[trigger] rest[i] == (key, value) && forall|j: int|
                            0 <= j < i ==> (#[trigger] rest[j]).0 != key;
                    assert(dict[i + 1] == (key, value));
                    assert forall|j: int| 0 <= j < i + 1 implies (#[trigger] dict[j]).0 != key by {
                        if j > 0 {
                            assert(rest[j - 1] == dict[j]);
                        }
                    }
                },
                None => {
                    assert forall|j: int| 0 <= j < dict.len() implies (#[trigger] dict[j]).0
                        != key by {
                        if j > 0 {
                            assert(rest[j - 1] == dict[j]);
                        }
                    }
                },
            }
        }
    }
}

/// A dictionary gives for a key the value of the first pair with it, and
/// nothing only where there is no such pair.
pub proof fn law_first_pair_counts(dict: &Dict, key: &str, value: Option<&String>)
    requires
        call_ensures(Dict::get, (dict, key), value),
    ensures
        value is None <==> forall|i: int|
            0 <= i < dict.entries@.len() ==> (#[trigger] dict.entries@[i]).0@ != key@,
        value matches Some(value) ==> exists|i: int|
            0 <= i < dict.entries@.len() && (#[trigger] dict.entries@[i]).0@ == key@
                && dict.entries@[i].1@ == value@ && forall|j: int|
                0 <= j < i ==> (#[trigger] dict.entries@[j]).0@ != key@,
{
    let view = dict@;
    assert(forall|i: int|
        0 <= i < view.len() ==> #[trigger] view[i] == (dict.entries@[i].0@, dict.entries@[i].1@));
    lemma_first_value_is_first(view, key@);
    match value {
        Some(value) => {
            let i = choose|i: int|
                0 <= i < view.len() && #[trigger] view[i] == (key@, value@) && forall|j: int|
                    0 <= j < i ==> (#[trigger] view[j]).0 != key@;
            assert(dict.entries@[i].0@ == key@ && dict.entries@[i].1@ == value@);
            assert forall|j: int| 0 <= j < i implies (#[trigger] dict.entries@[j]).0@ != key@ by {
                assert(view[j].0 != key@);
            }
        },
        None => {
            assert forall|i: int| 0 <= i < dict.entries@.len() implies (
            #[trigger] dict.entries@[i]).0@ != key@ by {
                assert(view[i].0 != key@);
            }
        },
    }
}

/// A key has a value if and only if the first pair with it has that value.
pub proof fn law_value_is_that_of_the_first_pair(dict: &Dict, key: &str, expected: &str, r: bool)
    requires
        call_ensures(Dict::has, (dict, key, expected), r),
    ensures
        r <==> exists|i: int|
            0 <= i < dict.entries@.len() && (#[trigger] dict.entries@[i]).0@ == key@
                && dict.entries@[i].1@ == expected@ && forall|j: int|
                0 <= j < i ==> (#[trigger] dict.entries@[j]).0@ != key@,
{
    lemma_has_by_first_pair(*dict, key@, expected@);
}

/// A key has a value if and only if the first pair with it has that value.
proof fn lemma_has_by_first_pair(dict: Dict, key: Seq<char>, value: Seq<char>)
    ensures
        first_value(dict@, key) == Some(value) <==> exists|i: int|
            0 <= i < dict.entries@.len() && (#[trigger] dict.entries@[i]).0@ == key
                && dict.entries@[i].1@ == value && forall|j: int|
                0 <= j < i ==> (#[trigger] dict.entries@[j]).0@ != key,
{
    let view = dict@;
    let has = exists|i: int|
        0 <= i < dict.entries@.len() && (#[trigger] dict.entries@[i]).0@ == key
            && dict.entries@[i].1@ == value && forall|j: int|
            0 <= j < i ==> (#[trigger] dict.entries@[j]).0@ != key;
    assert(forall|i: int|
        0 <= i < view.len() ==> #[trigger] view[i] == (dict.entries@[i].0@, dict.entries@[i].1@));
    lemma_first_value_is_first(view, key);
    if first_value(view, key) == Some(value) {
        let i = choose|i: int|
            0 <= i < view.len() && #[trigger] view[i] == (key, value) && forall|j: int|
                0 <= j < i ==> (#[trigger] view[j]).0 != key;
        assert forall|j: int| 0 <= j < i implies (#[trigger] dict.entries@[j]).0@ != key by {
            assert(view[j].0 != key);
        }
        assert(dict.entries@[i].0@ == key);
        assert(has);
    }
    if has {
        let i = choose|i: int|
            0 <= i < dict.entries@.len() && (#[trigger] dict.entries@[i]).0@ == key
                && dict.entries@[i].1@ == value && forall|j: int|
                0 <= j < i ==> (#[trigger] dict.entries@[j]).0@ != key;
        assert forall|j: int| 0 <= j < i implies (#[trigger] view[j]).0 != view[i].0 by {
            assert(dict.entries@[j].0@ != key);
        }
        lemma_first_value_at(view, i);
    }
}

/// A map gives for a key the value of the last pair with it in the dictionary
/// that it was copied from, and nothing only where there is no such pair.
pub proof fn law_last_pair_counts(dict: &Dict, map: PropMap, key: &str, value: Option<&String>)
    requires
        call_ensures(dict_to_map, (dict,), map),
        call_ensures(PropMap::get, (&map, key), value),
    ensures
        value is None <==> forall|i: int|
            0 <= i < dict.entries@.len() ==> (#[trigger] dict.entries@[i]).0@ != key@,
        forall|i: int|
            0 <= i < dict.entries@.len() && (#[trigger] dict.entries@[i]).0@ == key@ && (forall|
                j: int,
            |
                i < j < dict.entries@.len() ==> (#[trigger] dict.entries@[j]).0@ != key@)
                ==> value is Some && value->0@ == dict.entries@[i].1@,
{
    let view = dict@;
    assert(forall|i: int|
        0 <= i < view.len() ==> #[trigger] view[i] == (dict.entries@[i].0@, dict.entries@[i].1@));
    assert forall|i: int|
        0 <= i < dict.entries@.len() && (#[trigger] dict.entries@[i]).0@ == key@ && (forall|j: int|
            i < j < dict.entries@.len() ==> (#[trigger] dict.entries@[j]).0@
                != key@) implies value is Some && value->0@ == dict.entries@[i].1@ by {
        assert forall|j: int| i < j < view.len() implies (#[trigger] view[j]).0 != view[i].0 by {
            assert(dict.entries@[j].0@ != key@);
        }
        lemma_as_map_at(view, i);
    }
    lemma_as_map_keys(view, key@);
    if value is Some {
        let i = choose|i: int| 0 <= i < view.len() && (#[trigger] view[i]).0 == key@;
        assert(dict.entries@[i].0@ == key@);
    } else {
        assert forall|i: int| 0 <= i < dict.entries@.len() implies (#[trigger] dict.entries@[i]).0@
            != key@ by {
            assert(view[i].0 != key@);
        }
    }
}

/// The keys of the map are those that occur.
proof fn lemma_as_map_keys(dict: DictView, key: Seq<char>)
    ensures
        as_map(dict).contains_key(key) <==> exists|i: int|
            0 <= i < dict.len() && (#[trigger] dict[i]).0 == key,
    decreases dict.len(),
{
    if dict.len() > 0 {
        let rest = dict.drop_last();
        lemma_as_map_keys(rest, key);
        if exists|i: int| 0 <= i < rest.len() && (#[trigger] rest[i]).0 == key {
            let i = choose|i: int| 0 <= i < rest.len() && (#[trigger] rest[i]).0 == key;
            assert(dict[i].0 == key);
        }
        if exists|i: int| 0 <= i < dict.len() && (#[trigger] dict[i]).0 == key {
            let i = choose|i: int| 0 <= i < dict.len() && (#[trigger] dict[i]).0 == key;
            if i < rest.len() {
                assert(rest[i].0 == key);
            }
        }
        if dict.last().0 == key {
            assert(dict[dict.len() - 1].0 == key);
        }
    }
}

/// What plays audio is a node with properties whose media class, by the first
/// pair that gives one, is that of an audio output stream; its properties are
/// handed out, and those of nothing else.
pub proof fn law_audio_streams_are_told_by_media_class(global: &Global, props: Option<&Dict>)
    requires
        call_ensures(Global::audio_props, (global,), props),
    ensures
        props is Some <==> global.type_ == ObjectType::Node && global.props is Some && exists|
            i: int,
        |
            0 <= i < global.props->0.entries@.len() && (
            #[trigger] global.props->0.entries@[i]).0@ == "media.class"@
                && global.props->0.entries@[i].1@ == "Stream/Output/Audio"@ && forall|j: int|
                0 <= j < i ==> (#[trigger] global.props->0.entries@[j]).0@ != "media.class"@,
        props matches Some(props) ==> global.props == Some(*props),
{
    if global.props is Some {
        lemma_has_by_first_pair(global.props->0, "media.class"@, "Stream/Output/Audio"@);
    }
}

/// A node's properties are handed out, if it has any, and those of nothing
/// else.
pub proof fn law_only_nodes_have_properties(global: &Global, props: Option<&Dict>)
    requires
        call_ensures(Global::node_props, (global,), props),
    ensures
        global.type_ == ObjectType::Node ==> match global.props {
            Some(dict) => props == Some(&dict),
            None => props is None,
        },
        global.type_ != ObjectType::Node ==> props is None,
{
}

} // verus!

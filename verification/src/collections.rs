//! Lists and maps.

use fnv::{FnvBuildHasher, FnvHashMap};
use std::collections::HashMap;
use std::ops::{Deref, DerefMut};
use vstd::prelude::*;
use vstd::std_specs::iter::IteratorSpec;
use crate::value::{value_views, RantValue, ValueView};

verus! {

const DEFAULT_MAP_CAPACITY: usize = 16;

const DEFAULT_LIST_CAPACITY: usize = 16;

/// Refers to a map that the engine keeps.
#[derive(Debug, Clone, Copy, PartialEq, Eq, Structural)]
pub struct RantMapRef {
    pub id: usize,
}

/// Refers to a list that the engine keeps.
#[derive(Debug, Clone, Copy, PartialEq, Eq, Structural)]
pub struct RantListRef {
    pub id: usize,
}

/// Represents Rant's `list` type, which stores an ordered collection of values.
#[derive(Debug)]
pub struct RantList(Vec<RantValue>);

impl View for RantList {
    type V = Seq<ValueView>;

    closed spec fn view(&self) -> Seq<ValueView> {
        value_views(self.0@)
    }
}

impl RantList {
    /// Creates an empty RantList.
    pub fn new() -> (list: Self)
        ensures
            list@ == Seq::<ValueView>::empty(),
    {
        let list = RantList(Vec::with_capacity(DEFAULT_LIST_CAPACITY));
        assert(list@ =~= Seq::empty());
        list
    }

    /// Creates an empty RantList with the specified initial capacity.
    pub fn with_capacity(capacity: usize) -> (list: Self)
        ensures
            list@ == Seq::<ValueView>::empty(),
    {
        let list = RantList(Vec::with_capacity(capacity));
        assert(list@ =~= Seq::empty());
        list
    }

    /// Adds a value at the end.
    pub fn push(&mut self, value: RantValue)
        ensures
            final(self)@ == old(self)@.push(value@),
    {
        self.0.push(value);
        assert(self@ =~= old(self)@.push(value@));
    }

    pub fn len(&self) -> (len: usize)
        ensures
            len == self@.len(),
    {
        self.0.len()
    }

    /// The value at `index`, if there is one.
    pub fn get(&self, index: usize) -> (value: Option<&RantValue>)
        ensures
            match value {
                Some(value) => index < self@.len() && value@ == self@[index as int],
                None => index >= self@.len(),
            },
    {
        if index < self.0.len() {
            Some(&self.0[index])
        } else {
            None
        }
    }

    /// Replaces the value at `index`.
    pub fn set(&mut self, index: usize, value: RantValue)
        requires
            index < old(self)@.len(),
        ensures
            final(self)@ == old(self)@.update(index as int, value@),
    {
        self.0[index] = value;
        assert(self@ =~= old(self)@.update(index as int, value@));
    }
}

impl From<Vec<RantValue>> for RantList {
    fn from(list: Vec<RantValue>) -> (result: Self)
        ensures
            result@ == value_views(list@),
    {
        RantList(list)
    }
}

impl vstd::std_specs::convert::FromSpecImpl<Vec<RantValue>> for RantList {
    open spec fn obeys_from_spec() -> bool {
        true
    }

    closed spec fn from_spec(list: Vec<RantValue>) -> RantList {
        RantList(list)
    }
}

impl Deref for RantList {
    type Target = Vec<RantValue>;

    fn deref(&self) -> (values: &Vec<RantValue>)
        ensures
            value_views(values@) == self@,
    {
        &self.0
    }
}

impl DerefMut for RantList {
    fn deref_mut(&mut self) -> (values: &mut Vec<RantValue>)
        ensures
            value_views(values@) == old(self)@,
            value_views(final(values)@) == final(self)@,
    {
        &mut self.0
    }
}

impl IntoIterator for RantList {
    type Item = RantValue;

    type IntoIter = std::vec::IntoIter<RantValue>;

    fn into_iter(self) -> (values: std::vec::IntoIter<RantValue>)
        ensures
            value_views(values.remaining()) == self@,
    {
        self.0.into_iter()
    }
}

impl Default for RantList {
    fn default() -> (list: Self)
        ensures
            list@ == Seq::<ValueView>::empty(),
    {
        RantList::new()
    }
}

impl Clone for RantList {
    fn clone(&self) -> (copy: Self)
        ensures
            copy@ == self@,
    {
        let mut values: Vec<RantValue> = Vec::with_capacity(self.0.len());
        let mut i: usize = 0;
        while i < self.0.len()
            invariant
                i <= self.0@.len(),
                values@ == self.0@.take(i as int),
            decreases self.0@.len() - i,
        {
            values.push(self.0[i].clone());
            i = i + 1;
            assert(values@ =~= self.0@.take(i as int));
        }
        assert(values@ =~= self.0@);
        RantList(values)
    }
}

/// What the physical contents of a map hold.
pub uninterp spec fn map_entries(map: HashMap<String, RantValue, FnvBuildHasher>) -> Map<
    Seq<char>,
    ValueView,
>;

/// What a map without entries holds.
pub open spec fn no_entries() -> Map<Seq<char>, ValueView> {
    Map::empty()
}

/// `FnvHashMap::with_capacity_and_hasher` makes an empty map, whatever the capacity.
#[verifier::external_body]
fn new_entries(capacity: usize) -> (map: HashMap<String, RantValue, FnvBuildHasher>)
    ensures
        map_entries(map) == no_entries(),
{
    FnvHashMap::with_capacity_and_hasher(capacity, Default::default())
}

/// `HashMap::clear`, on a map with the hasher of `fnv`, takes every entry away.
#[verifier::external_body]
fn clear_entries(map: &mut HashMap<String, RantValue, FnvBuildHasher>)
    ensures
        map_entries(*final(map)) == no_entries(),
{
    map.clear()
}

/// `HashMap::len`, on a map with the hasher of `fnv`, counts the entries.
#[verifier::external_body]
fn count_entries(map: &HashMap<String, RantValue, FnvBuildHasher>) -> (len: usize)
    ensures
        len == map_entries(*map).dom().len(),
{
    map.len()
}

/// `HashMap::is_empty`, on a map with the hasher of `fnv`, says whether there are no entries.
#[verifier::external_body]
fn has_no_entries(map: &HashMap<String, RantValue, FnvBuildHasher>) -> (empty: bool)
    ensures
        empty == (map_entries(*map) == no_entries()),
{
    map.is_empty()
}

/// `HashMap::insert`, on a map with the hasher of `fnv`, gives a key a value in place of the one it
/// had, if any, which it hands back.
#[verifier::external_body]
fn insert_entry(
    map: &mut HashMap<String, RantValue, FnvBuildHasher>,
    key: String,
    value: RantValue,
) -> (previous: Option<RantValue>)
    ensures
        map_entries(*final(map)) == map_entries(*old(map)).insert(key@, value@),
        match previous {
            Some(previous) => {
                &&& map_entries(*old(map)).dom().contains(key@)
                &&& previous@ == map_entries(*old(map))[key@]
            },
            None => !map_entries(*old(map)).dom().contains(key@),
        },
{
    map.insert(key, value)
}

/// `HashMap::remove`, on a map with the hasher of `fnv`, takes the entry of a key away and hands
/// its value back.
#[verifier::external_body]
fn remove_entry(map: &mut HashMap<String, RantValue, FnvBuildHasher>, key: &str) -> (removed:
    Option<RantValue>)
    ensures
        map_entries(*final(map)) == map_entries(*old(map)).remove(key@),
        match removed {
            Some(removed) => {
                &&& map_entries(*old(map)).dom().contains(key@)
                &&& removed@ == map_entries(*old(map))[key@]
            },
            None => !map_entries(*old(map)).dom().contains(key@),
        },
{
    map.remove(key)
}

/// `HashMap::get`, on a map with the hasher of `fnv`, gives the value of a key.
#[verifier::external_body]
fn get_entry<'a>(map: &'a HashMap<String, RantValue, FnvBuildHasher>, key: &str) -> (value: Option<
    &'a RantValue,
>)
    ensures
        match value {
            Some(value) => {
                &&& map_entries(*map).dom().contains(key@)
                &&& value@ == map_entries(*map)[key@]
            },
            None => !map_entries(*map).dom().contains(key@),
        },
{
    map.get(key)
}

/// `HashMap::keys`, on a map with the hasher of `fnv`, hands out each key once, in an order that is
/// left open.
#[verifier::external_body]
fn entry_keys(map: &HashMap<String, RantValue, FnvBuildHasher>) -> (keys: Vec<String>)
    ensures
        keys@.map_values(|key: String| key@).to_set() == map_entries(*map).dom(),
        keys@.map_values(|key: String| key@).no_duplicates(),
{
    map.keys().cloned().collect()
}

/// The view of a [`RantMap`].
#[verifier::ext_equal]
pub struct MapView {
    pub entries: Map<Seq<char>, ValueView>,
    pub proto: Option<RantMapRef>,
}

/// Represents Rant's `map` type, which stores a collection of key-value pairs.
/// Map keys are always strings.
#[derive(Debug, Clone)]
pub struct RantMap {
    /// The physical contents of the map
    map: HashMap<String, RantValue, FnvBuildHasher>,
    /// The prototype of the map
    proto: Option<RantMapRef>,
}

impl View for RantMap {
    type V = MapView;

    closed spec fn view(&self) -> MapView {
        MapView { entries: map_entries(self.map), proto: self.proto }
    }
}

/// A map without entries or prototype.
pub open spec fn empty_map() -> MapView {
    MapView { entries: Map::empty(), proto: None }
}

impl RantMap {
    pub fn new() -> (map: Self)
        ensures
            map@ == empty_map(),
    {
        RantMap { map: new_entries(DEFAULT_MAP_CAPACITY), proto: None }
    }

    /// Takes every entry away. The prototype stays.
    pub fn clear(&mut self)
        ensures
            final(self)@ == (MapView { entries: Map::empty(), ..old(self)@ }),
    {
        clear_entries(&mut self.map);
    }

    /// How many entries the map itself has.
    pub fn raw_len(&self) -> (len: usize)
        ensures
            len == self@.entries.dom().len(),
    {
        count_entries(&self.map)
    }

    /// Whether the map itself has no entries.
    pub fn is_empty(&self) -> (empty: bool)
        ensures
            empty == (self@.entries == no_entries()),
    {
        has_no_entries(&self.map)
    }

    pub fn proto(&self) -> (proto: Option<RantMapRef>)
        ensures
            proto == self@.proto,
    {
        self.proto
    }

    pub fn set_proto(&mut self, proto: Option<RantMapRef>)
        ensures
            final(self)@ == (MapView { proto, ..old(self)@ }),
    {
        self.proto = proto;
    }

    /// Gives a key of the map itself a value.
    pub fn raw_set(&mut self, key: &str, val: RantValue)
        ensures
            final(self)@ == (MapView {
                entries: old(self)@.entries.insert(key@, val@),
                ..old(self)@
            }),
    {
        insert_entry(&mut self.map, key.to_owned(), val);
    }

    /// Takes a key away from the map itself.
    pub fn raw_remove(&mut self, key: &str)
        ensures
            final(self)@ == (MapView { entries: old(self)@.entries.remove(key@), ..old(self)@ }),
    {
        remove_entry(&mut self.map, key);
    }

    /// Takes a key away from the map itself and gives the value it had.
    pub fn raw_take(&mut self, key: &str) -> (taken: Option<RantValue>)
        ensures
            final(self)@ == (MapView { entries: old(self)@.entries.remove(key@), ..old(self)@ }),
            match taken {
                Some(taken) => {
                    &&& old(self)@.entries.dom().contains(key@)
                    &&& taken@ == old(self)@.entries[key@]
                },
                None => !old(self)@.entries.dom().contains(key@),
            },
    {
        remove_entry(&mut self.map, key)
    }

    /// The value of a key of the map itself.
    pub fn raw_get<'a>(&'a self, key: &str) -> (value: Option<&'a RantValue>)
        ensures
            match value {
                Some(value) => {
                    &&& self@.entries.dom().contains(key@)
                    &&& value@ == self@.entries[key@]
                },
                None => !self@.entries.dom().contains(key@),
            },
    {
        get_entry(&self.map, key)
    }

    /// Whether the map itself has a key.
    pub fn raw_has_key(&self, key: &str) -> (has: bool)
        ensures
            has == self@.entries.dom().contains(key@),
    {
        get_entry(&self.map, key).is_some()
    }

    /// The keys of the map itself, each once, in an order that is left open.
    pub fn raw_keys(&self) -> (keys: RantList)
        ensures
            keys@.no_duplicates(),
            forall|key: Seq<char>| #[trigger]
                self@.entries.dom().contains(key) <==> keys@.contains(ValueView::Text(key)),
            forall|i: int| 0 <= i < keys@.len() ==> (#[trigger] keys@[i]) is Text,
    {
        let names = entry_keys(&self.map);
        let ghost views = names@.map_values(|key: String| key@);
        let mut keys = RantList::new();
        let mut i: usize = 0;
        while i < names.len()
            invariant
                i <= names@.len(),
                keys@.len() == i,
                forall|j: int| 0 <= j < i ==> #[trigger] keys@[j] == ValueView::Text(names@[j]@),
            decreases names@.len() - i,
        {
            keys.push(RantValue::Text(names[i].clone()));
            i = i + 1;
        }
        proof {
            assert forall|a: int, b: int| 0 <= a < b < keys@.len() implies keys@[a] != keys@[b] by {
                assert(views[a] == names@[a]@);
                assert(views[b] == names@[b]@);
            }
            assert forall|key: Seq<char>| #[trigger]
                self@.entries.dom().contains(key) <==> keys@.contains(ValueView::Text(key)) by {
                if self@.entries.dom().contains(key) {
                    assert(views.to_set().contains(key));
                    let j = choose|j: int| 0 <= j < views.len() && views[j] == key;
                    assert(keys@[j] == ValueView::Text(key));
                }
                if keys@.contains(ValueView::Text(key)) {
                    let j = choose|j: int|
                        0 <= j < keys@.len() && keys@[j] == ValueView::Text(key);
                    assert(views[j] == key);
                    assert(views.to_set().contains(key));
                }
            }
        }
        keys
    }
}

impl Default for RantMap {
    fn default() -> (map: Self)
        ensures
            map@ == empty_map(),
    {
        RantMap::new()
    }
}

} // verus!

//! The engine: global variables, and the lists and maps that values refer to.

use vstd::prelude::*;
use crate::collections::{MapView, RantList, RantListRef, RantMap, RantMapRef};
use crate::runtime::error::{
    IndexError, IndexErrorView, KeyError, KeyErrorView, ValueIndexResult, ValueIndexSetResult,
    ValueKeyResult, ValueKeySetResult,
};
use crate::value::{RantValue, RantVar, ValueView};

verus! {

/// What an engine offers to programs.
#[derive(Debug, Clone, Copy, PartialEq, Eq, Structural)]
pub struct RantOptions {
    /// Whether programs can load modules.
    pub enable_require: bool,
}

/// A Rant engine.
#[derive(Debug)]
pub struct Rant {
    pub options: RantOptions,
    globals: Vec<(String, RantVar)>,
    lists: Vec<RantList>,
    maps: Vec<RantMap>,
}

/// The view of a [`Rant`].
#[verifier::ext_equal]
pub struct EngineView {
    pub options: RantOptions,
    pub globals: Map<Seq<char>, ValueView>,
    pub lists: Seq<Seq<ValueView>>,
    pub maps: Seq<MapView>,
}

/// What a list of named variables holds. Of two of the same name, the first counts.
pub open spec fn named_values(entries: Seq<(String, RantVar)>) -> Map<Seq<char>, ValueView>
    decreases entries.len(),
{
    if entries.len() == 0 {
        Map::empty()
    } else {
        named_values(entries.drop_first()).insert(entries[0].0@, entries[0].1@)
    }
}

/// Where a name stands in a list of named variables: the first place, or its length.
pub open spec fn place_of_name(entries: Seq<(String, RantVar)>, id: Seq<char>) -> nat
    decreases entries.len(),
{
    if entries.len() == 0 || entries[0].0@ == id {
        0
    } else {
        1 + place_of_name(entries.drop_first(), id)
    }
}

proof fn lemma_place_of_name(entries: Seq<(String, RantVar)>, id: Seq<char>)
    ensures
        place_of_name(entries, id) <= entries.len(),
        named_values(entries).dom().contains(id) <==> place_of_name(entries, id) < entries.len(),
        place_of_name(entries, id) < entries.len() ==> {
            let place = place_of_name(entries, id) as int;
            entries[place].0@ == id && named_values(entries)[id] == entries[place].1@
        },
    decreases entries.len(),
{
    if entries.len() > 0 && entries[0].0@ != id {
        lemma_place_of_name(entries.drop_first(), id);
    }
}

proof fn lemma_replace_named(
    entries: Seq<(String, RantVar)>,
    id: Seq<char>,
    entry: (String, RantVar),
)
    requires
        entry.0@ == id,
    ensures
        place_of_name(entries, id) < entries.len() ==> named_values(
            entries.update(place_of_name(entries, id) as int, entry),
        ) == named_values(entries).insert(id, entry.1@),
        place_of_name(entries, id) == entries.len() ==> named_values(entries.push(entry))
            == named_values(entries).insert(id, entry.1@),
    decreases entries.len(),
{
    if entries.len() == 0 {
        assert(entries.push(entry).drop_first() =~= entries);
    } else if entries[0].0@ == id {
        assert(entries.update(0, entry).drop_first() =~= entries.drop_first());
        assert(named_values(entries.update(0, entry)) =~= named_values(entries).insert(
            id,
            entry.1@,
        ));
    } else {
        let rest = entries.drop_first();
        lemma_replace_named(rest, id, entry);
        lemma_place_of_name(rest, id);
        let place = place_of_name(rest, id) as int;
        if place < rest.len() {
            assert(entries.update(place + 1, entry).drop_first() =~= rest.update(place, entry));
            assert(named_values(entries.update(place + 1, entry)) =~= named_values(entries).insert(
                id,
                entry.1@,
            ));
        } else {
            assert(entries.push(entry).drop_first() =~= rest.push(entry));
            assert(named_values(entries.push(entry)) =~= named_values(entries).insert(
                id,
                entry.1@,
            ));
        }
    }
}

/// Where an index points in a list of the given length. Negative indices count from the end.
pub open spec fn resolve_index(index: i64, len: nat) -> Option<nat> {
    if 0 <= index < len {
        Some(index as nat)
    } else if index < 0 && len + index >= 0 {
        Some((len + index) as nat)
    } else {
        None
    }
}

impl EngineView {
    /// The items of a list; none if there is no such list.
    pub open spec fn list(self, list: RantListRef) -> Seq<ValueView> {
        if list.id < self.lists.len() {
            self.lists[list.id as int]
        } else {
            Seq::empty()
        }
    }

    /// The entries of a map; none if there is no such map.
    pub open spec fn entries(self, map: RantMapRef) -> Map<Seq<char>, ValueView> {
        if map.id < self.maps.len() {
            self.maps[map.id as int].entries
        } else {
            Map::empty()
        }
    }

    /// What is in a value at an index.
    pub open spec fn at_index(self, value: ValueView, index: i64) -> Result<
        ValueView,
        IndexErrorView,
    > {
        match value {
            ValueView::List(list) => match resolve_index(index, self.list(list).len()) {
                Some(i) => Ok(self.list(list)[i as int]),
                None => Err(IndexErrorView::OutOfRange),
            },
            _ => Err(IndexErrorView::CannotIndexType(value.type_text())),
        }
    }

    /// What is in a value at a key.
    pub open spec fn at_key(self, value: ValueView, key: Seq<char>) -> Result<
        ValueView,
        KeyErrorView,
    > {
        match value {
            ValueView::MapRef(map) => if self.entries(map).dom().contains(key) {
                Ok(self.entries(map)[key])
            } else {
                Err(KeyErrorView::KeyNotFound(key))
            },
            _ => Err(KeyErrorView::CannotKeyType(value.type_text())),
        }
    }

    /// After writing to an index of a value.
    pub open spec fn with_index(self, value: ValueView, index: i64, item: ValueView) -> (
        Result<(), IndexErrorView>,
        EngineView,
    ) {
        match value {
            ValueView::List(list) => match resolve_index(index, self.list(list).len()) {
                Some(i) => (
                    Ok(()),
                    EngineView {
                        lists: self.lists.update(
                            list.id as int,
                            self.list(list).update(i as int, item),
                        ),
                        ..self
                    },
                ),
                None => (Err(IndexErrorView::OutOfRange), self),
            },
            _ => (Err(IndexErrorView::CannotIndexType(value.type_text())), self),
        }
    }

    /// After writing to a key of a value.
    pub open spec fn with_key(self, value: ValueView, key: Seq<char>, item: ValueView) -> (
        Result<(), KeyErrorView>,
        EngineView,
    ) {
        match value {
            ValueView::MapRef(map) => if map.id < self.maps.len() {
                let before = self.maps[map.id as int];
                (
                    Ok(()),
                    EngineView {
                        maps: self.maps.update(
                            map.id as int,
                            MapView { entries: before.entries.insert(key, item), ..before },
                        ),
                        ..self
                    },
                )
            } else {
                (Err(KeyErrorView::KeyNotFound(key)), self)
            },
            _ => (Err(KeyErrorView::CannotKeyType(value.type_text())), self),
        }
    }
}

pub open spec fn list_views(lists: Seq<RantList>) -> Seq<Seq<ValueView>> {
    lists.map_values(|list: RantList| list@)
}

pub open spec fn map_views(maps: Seq<RantMap>) -> Seq<MapView> {
    maps.map_values(|map: RantMap| map@)
}

impl View for Rant {
    type V = EngineView;

    closed spec fn view(&self) -> EngineView {
        EngineView {
            options: self.options,
            globals: named_values(self.globals@),
            lists: list_views(self.lists@),
            maps: map_views(self.maps@),
        }
    }
}

impl Rant {
    /// An engine without global variables.
    pub fn with_options(options: RantOptions) -> (rant: Self)
        ensures
            rant@ == (EngineView {
                options,
                globals: Map::empty(),
                lists: Seq::empty(),
                maps: Seq::empty(),
            }),
    {
        let rant = Rant { options, globals: Vec::new(), lists: Vec::new(), maps: Vec::new() };
        assert(rant@.lists =~= Seq::empty());
        assert(rant@.maps =~= Seq::empty());
        rant
    }

    /// Whether programs can load modules.
    pub fn enables_require(&self) -> (enabled: bool)
        ensures
            enabled == self@.options.enable_require,
    {
        self.options.enable_require
    }

    fn find_global(&self, id: &str) -> (place: usize)
        ensures
            place == place_of_name(self.globals@, id@),
    {
        let wanted = id.to_owned();
        let mut i: usize = 0;
        assert(self.globals@.skip(0) =~= self.globals@);
        while i < self.globals.len() && self.globals[i].0 != wanted
            invariant
                i <= self.globals@.len(),
                wanted@ == id@,
                place_of_name(self.globals@, id@) == i + place_of_name(
                    self.globals@.skip(i as int),
                    id@,
                ),
            decreases self.globals@.len() - i,
        {
            assert(self.globals@.skip(i as int).drop_first() =~= self.globals@.skip(i + 1));
            i = i + 1;
        }
        i
    }

    /// Whether there is a global variable of that name.
    pub fn has_global(&self, id: &str) -> (has: bool)
        ensures
            has == self@.globals.dom().contains(id@),
    {
        proof {
            lemma_place_of_name(self.globals@, id@);
        }
        self.find_global(id) < self.globals.len()
    }

    /// The value of a global variable.
    pub fn get_global(&self, id: &str) -> (value: Option<RantValue>)
        ensures
            match value {
                Some(value) => {
                    &&& self@.globals.dom().contains(id@)
                    &&& value@ == self@.globals[id@]
                },
                None => !self@.globals.dom().contains(id@),
            },
    {
        match self.get_global_var(id) {
            Some(var) => Some(var.value_cloned()),
            None => None,
        }
    }

    /// A global variable.
    pub fn get_global_var(&self, id: &str) -> (var: Option<&RantVar>)
        ensures
            match var {
                Some(var) => {
                    &&& self@.globals.dom().contains(id@)
                    &&& var@ == self@.globals[id@]
                },
                None => !self@.globals.dom().contains(id@),
            },
    {
        proof {
            lemma_place_of_name(self.globals@, id@);
        }
        let place = self.find_global(id);
        if place < self.globals.len() {
            Some(&self.globals[place].1)
        } else {
            None
        }
    }

    /// A global variable, to be changed.
    pub fn get_global_var_mut<'a>(&'a mut self, id: &str) -> (var: Option<&'a mut RantVar>)
        ensures
            match var {
                Some(var) => {
                    &&& old(self)@.globals.dom().contains(id@)
                    &&& var@ == old(self)@.globals[id@]
                    &&& final(self)@ == (EngineView {
                        globals: old(self)@.globals.insert(id@, final(var)@),
                        ..old(self)@
                    })
                },
                None => {
                    &&& !old(self)@.globals.dom().contains(id@)
                    &&& final(self)@ == old(self)@
                },
            },
    {
        let place = self.find_global(id);
        proof {
            lemma_place_of_name(self.globals@, id@);
            assert forall|var: RantVar| place < self.globals@.len() implies #[trigger] named_values(
                self.globals@.update(place as int, (self.globals@[place as int].0, var)),
            ) == named_values(self.globals@).insert(id@, var@) by {
                lemma_replace_named(self.globals@, id@, (self.globals@[place as int].0, var));
            }
        }
        if place < self.globals.len() {
            Some(&mut self.globals[place].1)
        } else {
            None
        }
    }

    /// Makes a global variable with the given value, or gives it that value.
    pub fn set_global(&mut self, id: &str, value: RantValue)
        ensures
            final(self)@ == (EngineView {
                globals: old(self)@.globals.insert(id@, value@),
                ..old(self)@
            }),
    {
        self.set_global_var(id, RantVar::ByVal(value));
    }

    /// Makes a global variable, or replaces it.
    pub fn set_global_var(&mut self, id: &str, var: RantVar)
        ensures
            final(self)@ == (EngineView {
                globals: old(self)@.globals.insert(id@, var@),
                ..old(self)@
            }),
    {
        let place = self.find_global(id);
        let entry = (id.to_owned(), var);
        proof {
            lemma_place_of_name(self.globals@, id@);
            lemma_replace_named(self.globals@, id@, entry);
        }
        if place < self.globals.len() {
            self.globals[place] = entry;
        } else {
            self.globals.push(entry);
        }
    }

    /// Keeps a list and gives a value that refers to it.
    pub fn add_list(&mut self, list: RantList) -> (value: RantValue)
        ensures
            value@ == ValueView::List(RantListRef { id: old(self)@.lists.len() as usize }),
            final(self)@ == (EngineView { lists: old(self)@.lists.push(list@), ..old(self)@ }),
            old(self)@.lists.len() < usize::MAX,
    {
        self.lists.push(list);
        let id: usize = self.lists.len() - 1;
        assert(self@.lists =~= old(self)@.lists.push(list@));
        RantValue::List(RantListRef { id })
    }

    /// Keeps a map and gives a value that refers to it.
    pub fn add_map(&mut self, map: RantMap) -> (value: RantValue)
        ensures
            value@ == ValueView::MapRef(RantMapRef { id: old(self)@.maps.len() as usize }),
            final(self)@ == (EngineView { maps: old(self)@.maps.push(map@), ..old(self)@ }),
            old(self)@.maps.len() < usize::MAX,
    {
        self.maps.push(map);
        let id: usize = self.maps.len() - 1;
        assert(self@.maps =~= old(self)@.maps.push(map@));
        RantValue::MapRef(RantMapRef { id })
    }

    /// What is in a value at an index.
    pub fn get_by_index(&self, value: &RantValue, index: i64) -> (result: ValueIndexResult)
        ensures
            match (result, self@.at_index(value@, index)) {
                (Ok(item), Ok(view)) => item@ == view,
                (Err(err), Err(view)) => err@ == view,
                _ => false,
            },
    {
        match value {
            RantValue::List(list) => {
                if list.id < self.lists.len() {
                    let items = &self.lists[list.id];
                    match find_index(index, items.len()) {
                        Some(i) => match items.get(i) {
                            Some(item) => Ok(item.clone()),
                            None => Err(IndexError::OutOfRange),
                        },
                        None => Err(IndexError::OutOfRange),
                    }
                } else {
                    Err(IndexError::OutOfRange)
                }
            },
            _ => Err(IndexError::CannotIndexType(value.type_label())),
        }
    }

    /// What is in a value at a key.
    pub fn get_by_key(&self, value: &RantValue, key: &str) -> (result: ValueKeyResult)
        ensures
            match (result, self@.at_key(value@, key@)) {
                (Ok(item), Ok(view)) => item@ == view,
                (Err(err), Err(view)) => err@ == view,
                _ => false,
            },
    {
        match value {
            RantValue::MapRef(map) => {
                if map.id < self.maps.len() {
                    match self.maps[map.id].raw_get(key) {
                        Some(item) => Ok(item.clone()),
                        None => Err(KeyError::KeyNotFound(key.to_owned())),
                    }
                } else {
                    Err(KeyError::KeyNotFound(key.to_owned()))
                }
            },
            _ => Err(KeyError::CannotKeyType(value.type_label())),
        }
    }

    /// Writes to an index of a value.
    pub fn set_by_index(&mut self, value: &RantValue, index: i64, item: RantValue) -> (result:
        ValueIndexSetResult)
        ensures
            final(self)@ == old(self)@.with_index(value@, index, item@).1,
            match (result, old(self)@.with_index(value@, index, item@).0) {
                (Ok(_), Ok(_)) => true,
                (Err(err), Err(view)) => err@ == view,
                _ => false,
            },
    {
        match value {
            RantValue::List(list) => {
                if list.id < self.lists.len() {
                    match find_index(index, self.lists[list.id].len()) {
                        Some(i) => {
                            self.lists[list.id].set(i, item);
                            assert(self@ =~= old(self)@.with_index(value@, index, item@).1);
                            Ok(())
                        },
                        None => Err(IndexError::OutOfRange),
                    }
                } else {
                    Err(IndexError::OutOfRange)
                }
            },
            _ => Err(IndexError::CannotIndexType(value.type_label())),
        }
    }

    /// Writes to a key of a value.
    pub fn set_by_key(&mut self, value: &RantValue, key: &str, item: RantValue) -> (result:
        ValueKeySetResult)
        ensures
            final(self)@ == old(self)@.with_key(value@, key@, item@).1,
            match (result, old(self)@.with_key(value@, key@, item@).0) {
                (Ok(_), Ok(_)) => true,
                (Err(err), Err(view)) => err@ == view,
                _ => false,
            },
    {
        match value {
            RantValue::MapRef(map) => {
                if map.id < self.maps.len() {
                    self.maps[map.id].raw_set(key, item);
                    assert(self@ =~= old(self)@.with_key(value@, key@, item@).1);
                    Ok(())
                } else {
                    Err(KeyError::KeyNotFound(key.to_owned()))
                }
            },
            _ => Err(KeyError::CannotKeyType(value.type_label())),
        }
    }
}

/// Where an index points in a list of the given length.
fn find_index(index: i64, len: usize) -> (place: Option<usize>)
    ensures
        match place {
            Some(i) => resolve_index(index, len as nat) == Some(i as nat) && i < len,
            None => resolve_index(index, len as nat) is None,
        },
{
    if index >= 0 {
        if (index as u64) < (len as u64) {
            Some(index as usize)
        } else {
            None
        }
    } else {
        let from_end: u64 = if index == i64::MIN {
            0x8000_0000_0000_0000
        } else {
            (-index) as u64
        };
        if from_end <= (len as u64) {
            Some(len - from_end as usize)
        } else {
            None
        }
    }
}

} // verus!

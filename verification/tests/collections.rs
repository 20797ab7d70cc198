use rant::collections::{RantList, RantMap, RantMapRef};
use rant::engine::{Rant, RantOptions};
use rant::runtime::error::{IndexError, KeyError};
use rant::value::{RantFunction, RantFunctionInterface, RantValue};
use std::rc::Rc;

fn number(value: Option<&RantValue>) -> Option<i64> {
    match value {
        Some(RantValue::Integer(n)) => Some(*n),
        Some(_) => panic!(),
        None => None,
    }
}

fn engine() -> Rant {
    Rant::with_options(RantOptions { enable_require: false })
}

#[test]
fn list_new_is_empty() {
    assert_eq!(RantList::new().len(), 0);
    assert_eq!(RantList::with_capacity(40).len(), 0);
    assert!(RantList::default().is_empty());
}

#[test]
fn list_keeps_order() {
    let mut list = RantList::new();
    list.push(RantValue::Integer(1));
    list.push(RantValue::Integer(2));
    list.set(0, RantValue::Integer(7));
    assert_eq!(number(list.get(0)), Some(7));
    assert_eq!(number(list.get(1)), Some(2));
    assert_eq!(number(list.get(2)), None);
    let copy = list.clone();
    assert_eq!(number(list.pop().as_ref()), Some(2));
    assert_eq!(list.len(), 1);
    assert_eq!(copy.len(), 2);
    assert_eq!(copy.into_iter().count(), 2);
    assert!(RantList::new().pop().is_none());
}

#[test]
fn list_from_values() {
    let list = RantList::from(vec![RantValue::Integer(3), RantValue::Integer(4)]);
    assert_eq!(list.len(), 2);
    assert_eq!(number(list.get(1)), Some(4));
}

#[test]
fn map_reads_back_what_was_set() {
    let mut map = RantMap::new();
    assert!(map.is_empty());
    map.raw_set("a", RantValue::Integer(1));
    map.raw_set("b", RantValue::Integer(2));
    map.raw_set("a", RantValue::Integer(3));
    assert_eq!(map.raw_len(), 2);
    assert!(!map.is_empty());
    assert_eq!(number(map.raw_get("a")), Some(3));
    assert_eq!(number(map.raw_get("b")), Some(2));
    assert_eq!(number(map.raw_get("c")), None);
    assert!(map.raw_has_key("b"));
    assert!(!map.raw_has_key("c"));
}

#[test]
fn map_forgets_what_was_removed() {
    let mut map = RantMap::default();
    map.raw_set("a", RantValue::Integer(1));
    map.raw_set("b", RantValue::Integer(2));
    map.raw_remove("a");
    map.raw_remove("missing");
    assert!(!map.raw_has_key("a"));
    assert_eq!(number(map.raw_take("b").as_ref()), Some(2));
    assert!(map.raw_take("b").is_none());
    assert!(map.is_empty());
    assert_eq!(map.raw_len(), 0);
}

#[test]
fn map_clear_keeps_prototype() {
    let mut map = RantMap::new();
    map.raw_set("a", RantValue::Integer(1));
    assert_eq!(map.proto(), None);
    map.set_proto(Some(RantMapRef { id: 4 }));
    map.clear();
    assert!(map.is_empty());
    assert_eq!(map.proto(), Some(RantMapRef { id: 4 }));
    map.set_proto(None);
    assert_eq!(map.proto(), None);
}

#[test]
fn map_keys_come_once_each() {
    let mut map = RantMap::new();
    for key in ["x", "y", "z", "x"] {
        map.raw_set(key, RantValue::Empty);
    }
    let mut keys: Vec<String> =
        map.raw_keys().into_iter().map(|key| key.to_text()).collect();
    keys.sort();
    assert_eq!(keys, vec!["x", "y", "z"]);
    let copy = map.clone();
    assert_eq!(copy.raw_len(), 3);
}

#[test]
fn engine_globals() {
    let mut rant = engine();
    assert!(!rant.has_global("g"));
    assert!(rant.get_global("g").is_none());
    assert!(rant.get_global_var_mut("g").is_none());
    rant.set_global("g", RantValue::Integer(1));
    rant.set_global("h", RantValue::Integer(2));
    rant.set_global("g", RantValue::Integer(3));
    assert!(rant.has_global("g"));
    assert_eq!(number(rant.get_global("g").as_ref()), Some(3));
    rant.get_global_var_mut("h").unwrap().write(RantValue::Integer(9));
    assert_eq!(number(rant.get_global("h").as_ref()), Some(9));
    assert_eq!(number(Some(rant.get_global_var("g").unwrap().value_ref())), Some(3));
}

#[test]
fn lists_are_read_and_written_by_index() {
    let mut rant = engine();
    let list = rant.add_list(RantList::from(vec![
        RantValue::Integer(10),
        RantValue::Integer(20),
        RantValue::Integer(30),
    ]));
    assert_eq!(number(rant.get_by_index(&list, 0).ok().as_ref()), Some(10));
    assert_eq!(number(rant.get_by_index(&list, -1).ok().as_ref()), Some(30));
    assert_eq!(number(rant.get_by_index(&list, -3).ok().as_ref()), Some(10));
    assert_eq!(rant.get_by_index(&list, 3).err(), Some(IndexError::OutOfRange));
    assert_eq!(rant.get_by_index(&list, -4).err(), Some(IndexError::OutOfRange));
    assert_eq!(rant.get_by_index(&list, i64::MIN).err(), Some(IndexError::OutOfRange));
    assert_eq!(rant.set_by_index(&list, 1, RantValue::Integer(25)), Ok(()));
    assert_eq!(number(rant.get_by_index(&list, 1).ok().as_ref()), Some(25));
    assert_eq!(
        rant.set_by_index(&list, 3, RantValue::Empty),
        Err(IndexError::OutOfRange)
    );
    assert_eq!(
        rant.get_by_index(&RantValue::Integer(1), 0).err(),
        Some(IndexError::CannotIndexType("integer"))
    );
    assert_eq!(
        rant.set_by_index(&RantValue::Empty, 0, RantValue::Empty),
        Err(IndexError::CannotIndexType("empty"))
    );
}

#[test]
fn maps_are_read_and_written_by_key() {
    let mut rant = engine();
    let map = rant.add_map(RantMap::new());
    let other = rant.add_map(RantMap::new());
    assert_eq!(
        rant.get_by_key(&map, "k").err(),
        Some(KeyError::KeyNotFound("k".to_owned()))
    );
    assert_eq!(rant.set_by_key(&map, "k", RantValue::Integer(5)), Ok(()));
    assert_eq!(number(rant.get_by_key(&map, "k").ok().as_ref()), Some(5));
    assert_eq!(
        rant.get_by_key(&other, "k").err(),
        Some(KeyError::KeyNotFound("k".to_owned()))
    );
    assert_eq!(
        rant.get_by_key(&RantValue::Boolean(true), "k").err(),
        Some(KeyError::CannotKeyType("bool"))
    );
    assert_eq!(
        rant.set_by_key(&RantValue::Text("s".to_owned()), "k", RantValue::Empty),
        Err(KeyError::CannotKeyType("string"))
    );
}

#[test]
fn values_as_text() {
    let func = RantFunction {
        body: RantFunctionInterface::Foreign(0),
        params: Rc::new(vec![]),
        min_arg_count: 0,
        vararg_start_index: 0,
    };
    let func = RantValue::Function(Rc::new(func));
    assert!(func.is_callable());
    assert_eq!(func.to_text(), "[function]");
    assert_eq!(RantValue::Empty.to_text(), "");
    assert_eq!(RantValue::Integer(0).to_text(), "0");
    assert_eq!(RantValue::Integer(-120).to_text(), "-120");
    assert_eq!(RantValue::Integer(i64::MIN).to_text(), "-9223372036854775808");
    assert_eq!(RantValue::Boolean(true).to_text(), "true");
    assert_eq!(RantValue::Text("x".to_owned()).to_text(), "x");
    assert!(RantValue::default().is_empty());
    assert!(!RantValue::Integer(0).is_callable());
    assert_eq!(engine().add_list(RantList::new()).to_text(), "[list]");
    assert_eq!(engine().add_map(RantMap::new()).type_label(), "map");
}

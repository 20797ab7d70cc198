//! What a setter writes, a getter reads back.

use std::rc::Rc;
use vstd::prelude::*;
use crate::collections::RantMapRef;
use crate::compiler::lang::AccessPathKind;
use crate::engine::{resolve_index, EngineView};
use crate::laws::{
    assignment_reads_back, index_reads_back, key_reads_back, local_definition_reads_back,
};
use crate::runtime::machine::{
    follow, get_local, get_value, keys_before, leave_val, pop_val, pop_vals, root_name, select,
    selector, set_value, write_to, HaltView, Machine, SelectorView,
};
use crate::runtime::program::{expressions, VarAccessPath};
use crate::value::ValueView;

verus! {

/// With values on top of the value stack.
pub open spec fn with_vals(m: Machine, vals: Seq<ValueView>) -> Machine {
    Machine { vals: m.vals + vals, ..m }
}

/// Whether two selectors of two values mean the same place.
pub open spec fn same_place(
    engine: EngineView,
    a: ValueView,
    at_a: SelectorView,
    b: ValueView,
    at_b: SelectorView,
) -> bool {
    match (at_a, at_b) {
        (SelectorView::Index(i), SelectorView::Index(j)) => a == b && a is List && resolve_index(
            i,
            engine.list(a->List_0).len(),
        ) == resolve_index(j, engine.list(a->List_0).len()),
        (SelectorView::Key(i), SelectorView::Key(j)) => a == b && a is MapRef && i == j,
        _ => false,
    }
}

/// Whether step `i` of a path goes through the place that the last step leads to.
pub open spec fn goes_through_its_end(
    m: Machine,
    path: VarAccessPath,
    keys: Seq<ValueView>,
    i: int,
) -> bool {
    let last = path.parts@.len() - 1;
    match (
        follow(m, path, keys, i),
        selector(path.parts@[i], keys, keys_before(path, i)),
        follow(m, path, keys, last),
        selector(path.parts@[last], keys, keys_before(path, last)),
    ) {
        (Ok(value), Ok(at_value), Ok(target), Ok(at_target)) => same_place(
            m.engine,
            value,
            at_value,
            target,
            at_target,
        ),
        _ => false,
    }
}

/// The path does not lead through the place that it leads to.
pub open spec fn is_straight(m: Machine, path: VarAccessPath, keys: Seq<ValueView>) -> bool {
    forall|i: int|
        1 <= i < path.parts@.len() - 1 ==> !#[trigger] goes_through_its_end(m, path, keys, i)
}

/// Writing to a place leaves the others alone.
proof fn other_places_stay(
    engine: EngineView,
    target: ValueView,
    at_target: SelectorView,
    item: ValueView,
    value: ValueView,
    at_value: SelectorView,
)
    requires
        !same_place(engine, value, at_value, target, at_target),
    ensures
        ({
            let after = match at_target {
                SelectorView::Index(index) => engine.with_index(target, index, item).1,
                SelectorView::Key(key) => engine.with_key(target, key, item).1,
            };
            &&& select(after, value, at_value) == select(engine, value, at_value)
            &&& after.globals == engine.globals
        }),
{
}

proof fn way_stays(
    m: Machine,
    m1: Machine,
    path: VarAccessPath,
    keys: Seq<ValueView>,
    count: int,
    target: ValueView,
    at_target: SelectorView,
    item: ValueView,
)
    requires
        1 <= count < path.parts@.len(),
        is_straight(m, path, keys),
        follow(m, path, keys, path.parts@.len() - 1) == Ok::<ValueView, HaltView>(target),
        selector(
            path.parts@[path.parts@.len() - 1],
            keys,
            keys_before(path, path.parts@.len() - 1),
        ) == Ok::<SelectorView, HaltView>(at_target),
        m1.stack == m.stack,
        m1.engine == match at_target {
            SelectorView::Index(index) => m.engine.with_index(target, index, item).1,
            SelectorView::Key(key) => m.engine.with_key(target, key, item).1,
        },
    ensures
        follow(m1, path, keys, count) == follow(m, path, keys, count),
    decreases count,
{
    if count > 1 {
        way_stays(m, m1, path, keys, count - 1, target, at_target, item);
        let i = count - 1;
        assert(!goes_through_its_end(m, path, keys, i));
        if let (Ok(value), Ok(at_value)) = (
            follow(m, path, keys, i),
            selector(path.parts@[i], keys, keys_before(path, i)),
        ) {
            other_places_stay(m.engine, target, at_target, item, value, at_value);
        }
    }
}

/// What was written to the place that a path leads to is found there.
proof fn write_reads_back(
    m: Machine,
    path: VarAccessPath,
    auto_def: bool,
    keys: Seq<ValueView>,
    value: ValueView,
)
    requires
        m.wf(),
        is_straight(m, path, keys),
        write_to(m, path, auto_def, keys, value).0 is Ok,
    ensures
        ({
            let m1 = write_to(m, path, auto_def, keys, value).1;
            &&& follow(m1, path, keys, path.parts@.len() as int) == Ok::<ValueView, HaltView>(
                value,
            )
            &&& m1.vals == m.vals
        }),
{
    let len = path.parts@.len();
    let m1 = write_to(m, path, auto_def, keys, value).1;
    if len <= 1 {
        if let Ok(name) = root_name(path, keys) {
            if auto_def {
                local_definition_reads_back(m.stack, m.engine.globals, name, value);
            } else {
                assignment_reads_back(m.stack, m.engine, name, AccessPathKind::Local, value);
            }
        }
    } else {
        let target = follow(m, path, keys, len - 1)->Ok_0;
        let at_target = selector(path.parts@[len - 1], keys, keys_before(path, len - 1))->Ok_0;
        way_stays(m, m1, path, keys, len - 1, target, at_target, value);
        match at_target {
            SelectorView::Index(index) => index_reads_back(m.engine, target, index, value),
            SelectorView::Key(key) => key_reads_back(m.engine, target, key, value),
        }
    }
}

/// A getter reads back, under the same dynamic keys, what a setter wrote.
///
/// The setter finds the value on top of the value stack and the keys below it, that of the last
/// expression in the path on top; the getter finds that of the first one on top. The path must not
/// lead through the place that it leads to, as it can where a map holds itself.
pub proof fn setter_reads_back(
    m: Machine,
    path: VarAccessPath,
    auto_def: bool,
    keys: Seq<ValueView>,
    value: ValueView,
)
    requires
        m.wf(),
        is_straight(m, path, keys),
        set_value(
            with_vals(m, keys.push(value)),
            path,
            auto_def,
            keys.len(),
        ).0 is Ok,
    ensures
        ({
            let m1 = set_value(
                with_vals(m, keys.push(value)),
                path,
                auto_def,
                keys.len(),
            ).1;
            &&& m1.vals == m.vals
            &&& get_value(with_vals(m1, keys.reverse()), path, keys.len(), true) == leave_val(
                m1,
                value,
            )
        }),
{
    setter_keys_lie_in_order(m, path, auto_def, keys, value);
    write_reads_back(m, path, auto_def, keys, value);
    keys_come_off(write_to(m, path, auto_def, keys, value).1, keys);
}

/// The keys below a value belong to the expressions in the path in order: the lowest key belongs to
/// the first expression.
pub proof fn setter_keys_lie_in_order(
    m: Machine,
    path: VarAccessPath,
    auto_def: bool,
    keys: Seq<ValueView>,
    value: ValueView,
)
    ensures
        set_value(with_vals(m, keys.push(value)), path, auto_def, keys.len()) == write_to(
            m,
            path,
            auto_def,
            keys,
            value,
        ),
{
    let start = with_vals(m, keys.push(value));
    assert(start.vals.drop_last() =~= with_vals(m, keys).vals);
    assert(keys.reverse().reverse() =~= keys);
    keys_come_off(m, keys.reverse());
}

proof fn keys_come_off(m: Machine, keys: Seq<ValueView>)
    ensures
        pop_vals(with_vals(m, keys.reverse()), keys.len()) == (
            Ok::<Seq<ValueView>, HaltView>(keys),
            m,
        ),
{
    let above = with_vals(m, keys.reverse());
    let (popped, left) = pop_vals(above, keys.len());
    assert(popped->Ok_0 =~= keys);
    assert(left =~= m);
}

/// A value that is written under a dynamic key of a map is the value of that key afterwards. Every
/// other key keeps its value, and nothing else changes but the value stack.
pub proof fn value_goes_under_its_key(
    m: Machine,
    path: Rc<VarAccessPath>,
    map: RantMapRef,
    key: Seq<char>,
    value: ValueView,
)
    requires
        path.parts@.len() == 2,
        path.parts@[0] is Name,
        path.parts@[1] is Expression,
        get_local(m, path.parts@[0]->Name_0@) == Ok::<ValueView, HaltView>(ValueView::MapRef(map)),
        map.id < m.engine.maps.len(),
    ensures
        ({
            let start = with_vals(m, seq![ValueView::Text(key), value]);
            let (result, m1) = set_value(start, *path, false, 1);
            &&& result is Ok
            &&& m1 == (Machine {
                engine: m.engine.with_key(ValueView::MapRef(map), key, value).1,
                ..m
            })
            &&& m1.engine.entries(map) == m.engine.entries(map).insert(key, value)
        }),
{
    let start = with_vals(m, seq![ValueView::Text(key), value]);
    let below = pop_val(start).1;
    assert(below.vals =~= m.vals.push(ValueView::Text(key)));
    let (keys, m2) = pop_vals(below, 1);
    assert(keys->Ok_0.reverse() =~= seq![ValueView::Text(key)]);
    assert(m2 =~= m);
    assert(path.parts@.take(1).drop_last() =~= Seq::empty());
    assert(keys_before(*path, 1) == 0) by {
        reveal_with_fuel(expressions, 2);
    }
}

} // verus!

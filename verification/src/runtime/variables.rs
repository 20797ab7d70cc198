//! What variables, paths and values stand for.

use std::rc::Rc;
use vstd::prelude::*;
use crate::collections::{RantListRef, RantMapRef};
use crate::compiler::lang::AccessPathKind;
use crate::engine::EngineView;
use crate::laws::{assignable_iff_readable, assignment_reads_back, local_definition_reads_back};
use crate::runtime::error::{ErrorTypeView, ErrorView, IndexErrorView, KeyErrorView};
use crate::runtime::locals::{holder, lemma_holder, pile};
use crate::runtime::machine::{follow, get_local, set_local, write_to, HaltView, Machine};
use crate::runtime::program::{expressions, VarAccessComponent, VarAccessPath};
use crate::runtime::stack::{
    first_function, lemma_pile_holder, runs, trace, trace_line, trace_lines, StackView,
};
use crate::text::decimal;
use crate::value::ValueView;

verus! {

// Variables.

/// Whether layer `i` is the innermost of the layers in reach that holds a variable of that name.
pub open spec fn is_innermost(
    stack: StackView,
    access: AccessPathKind,
    id: Seq<char>,
    i: int,
) -> bool {
    let layers = stack.in_reach(access);
    &&& 0 <= i < layers.len()
    &&& layers[i].dom().contains(id)
    &&& forall|j: int| i < j < layers.len() ==> !(#[trigger] layers[j]).dom().contains(id)
}

/// Whether no layer in reach holds a variable of that name.
pub open spec fn is_unknown(stack: StackView, access: AccessPathKind, id: Seq<char>) -> bool {
    let layers = stack.in_reach(access);
    forall|j: int| 0 <= j < layers.len() ==> !(#[trigger] layers[j]).dom().contains(id)
}

/// A variable of the innermost scope that holds one is the one found. If there is none, the global
/// variable is.
pub proof fn innermost_variable_is_found(
    stack: StackView,
    globals: Map<Seq<char>, ValueView>,
    id: Seq<char>,
    access: AccessPathKind,
    i: int,
)
    ensures
        is_innermost(stack, access, id, i) ==> stack.lookup(globals, id, access, false) == Some(
            stack.in_reach(access)[i][id],
        ),
        is_unknown(stack, access, id) && globals.dom().contains(id) ==> stack.lookup(
            globals,
            id,
            access,
            false,
        ) == Some(globals[id]),
        is_unknown(stack, access, id) && !globals.dom().contains(id) ==> stack.lookup(
            globals,
            id,
            access,
            false,
        ) is None,
{
    let layers = stack.in_reach(access);
    lemma_holder(layers, id);
    lemma_pile_holder(layers, id);
    if is_innermost(stack, access, id, i) {
        let k = holder(layers, id)->Some_0;
        assert(k == i) by {
            if k < i {
                assert(!layers[i].dom().contains(id));
            }
            if i < k {
                assert(!layers[k].dom().contains(id));
            }
        }
    }
}

/// A local access reaches every scope, a descoped one those that many levels out, and a global one
/// none.
pub proof fn accesses_reach_their_scopes(stack: StackView, depth: usize, i: int)
    ensures
        stack.in_reach(AccessPathKind::Local) == stack.layers,
        stack.in_reach(AccessPathKind::ExplicitGlobal).len() == 0,
        depth < stack.layers.len() ==> stack.in_reach(AccessPathKind::Descope(depth)).len()
            == stack.layers.len() - depth,
        depth >= stack.layers.len() ==> stack.in_reach(AccessPathKind::Descope(depth)).len() == 0,
        0 <= i < stack.layers.len() - depth ==> stack.in_reach(AccessPathKind::Descope(depth))[i]
            == stack.layers[i],
{
}

/// If a function is wanted, the innermost one of that name is found, even where a variable that is
/// no function hides it. If no scope has one, a global one is found. If there is none either, what
/// is found is what would be found otherwise.
pub proof fn wanted_functions_are_found(
    stack: StackView,
    globals: Map<Seq<char>, ValueView>,
    id: Seq<char>,
    access: AccessPathKind,
    i: int,
)
    ensures
        ({
            let layers = stack.in_reach(access);
            let found = stack.lookup(globals, id, access, true);
            &&& 0 <= i < layers.len() && layers[i].dom().contains(id) && layers[i][id] is Function
                && (forall|j: int|
                i < j < layers.len() && (#[trigger] layers[j]).dom().contains(id)
                    ==> !(layers[j][id] is Function)) ==> found == Some(layers[i][id])
            &&& (forall|j: int|
                0 <= j < layers.len() && (#[trigger] layers[j]).dom().contains(id)
                    ==> !(layers[j][id] is Function)) ==> found == if globals.dom().contains(id)
                && globals[id] is Function {
                Some(globals[id])
            } else {
                stack.lookup(globals, id, access, false)
            }
        }),
{
    let layers = stack.in_reach(access);
    if 0 <= i < layers.len() && layers[i].dom().contains(id) && layers[i][id] is Function && (
    forall|j: int|
        i < j < layers.len() && (#[trigger] layers[j]).dom().contains(id) ==> !(
        layers[j][id] is Function)) {
        first_function_is_innermost(layers, id, i);
    }
    if forall|j: int|
        0 <= j < layers.len() && (#[trigger] layers[j]).dom().contains(id) ==> !(
        layers[j][id] is Function) {
        no_function_is_first(layers, id);
    }
}

proof fn first_function_is_innermost(
    layers: Seq<Map<Seq<char>, ValueView>>,
    id: Seq<char>,
    i: int,
)
    requires
        0 <= i < layers.len(),
        layers[i].dom().contains(id),
        layers[i][id] is Function,
        forall|j: int|
            i < j < layers.len() && (#[trigger] layers[j]).dom().contains(id) ==> !(
            layers[j][id] is Function),
    ensures
        first_function(pile(layers, id)) == Some(layers[i][id]),
        pile(layers, id).len() > 0,
        pile(layers, id)[0] is Function ==> pile(layers, id)[0] == layers[i][id],
    decreases layers.len(),
{
    let lower = layers.drop_last();
    let below = pile(lower, id);
    let all = pile(layers, id);
    if i == layers.len() - 1 {
        assert(all[0] == layers[i][id]);
    } else {
        assert forall|j: int|
            i < j < lower.len() && (#[trigger] lower[j]).dom().contains(id) implies !(
        lower[j][id] is Function) by {
            assert(lower[j] == layers[j]);
        }
        first_function_is_innermost(lower, id, i);
        if layers.last().dom().contains(id) {
            assert(layers[layers.len() - 1].dom().contains(id));
            assert(all.drop_first() =~= below);
        }
    }
}

proof fn no_function_is_first(layers: Seq<Map<Seq<char>, ValueView>>, id: Seq<char>)
    requires
        forall|j: int|
            0 <= j < layers.len() && (#[trigger] layers[j]).dom().contains(id) ==> !(
            layers[j][id] is Function),
    ensures
        first_function(pile(layers, id)) is None,
        pile(layers, id).len() > 0 ==> !(pile(layers, id)[0] is Function),
    decreases layers.len(),
{
    if layers.len() > 0 {
        let lower = layers.drop_last();
        assert forall|j: int| 0 <= j < lower.len() && (#[trigger] lower[j]).dom().contains(id)
            implies !(lower[j][id] is Function) by {
            assert(lower[j] == layers[j]);
        }
        no_function_is_first(lower, id);
        if layers.last().dom().contains(id) {
            assert(layers[layers.len() - 1].dom().contains(id));
            assert(pile(layers, id).drop_first() =~= pile(lower, id));
        }
    }
}

/// Assigning to a variable changes it in the innermost scope that holds one, and nothing else. If
/// no scope holds one, only the global variable is changed, if there is one.
pub proof fn assignment_changes_the_innermost(
    stack: StackView,
    engine: EngineView,
    id: Seq<char>,
    access: AccessPathKind,
    value: ValueView,
    i: int,
    j: int,
)
    requires
        0 <= j < stack.layers.len(),
    ensures
        stack.assigned(id, access, value).frames == stack.frames,
        is_innermost(stack, access, id, i) ==> {
            let after = stack.assigned(id, access, value);
            &&& after.layers.len() == stack.layers.len()
            &&& after.layers[j] == if j == i {
                stack.layers[i].insert(id, value)
            } else {
                stack.layers[j]
            }
            &&& stack.assigned_global(engine, id, access, value) == engine
        },
        is_unknown(stack, access, id) ==> {
            &&& stack.assigned(id, access, value) == stack
            &&& engine.globals.dom().contains(id) ==> stack.assigned_global(
                engine,
                id,
                access,
                value,
            ) == (EngineView { globals: engine.globals.insert(id, value), ..engine })
            &&& !engine.globals.dom().contains(id) ==> stack.assigned_global(
                engine,
                id,
                access,
                value,
            ) == engine && !stack.can_assign(engine.globals, id, access)
        },
{
    let layers = stack.in_reach(access);
    lemma_holder(layers, id);
    if is_innermost(stack, access, id, i) {
        let k = holder(layers, id)->Some_0;
        assert(k == i) by {
            if k < i {
                assert(!layers[i].dom().contains(id));
            }
            if i < k {
                assert(!layers[k].dom().contains(id));
            }
        }
    }
}

/// A local definition makes a variable in the top scope, and changes nothing else. A global one
/// makes a global variable, and changes nothing else.
pub proof fn definitions_stay_in_their_scope(
    stack: StackView,
    engine: EngineView,
    id: Seq<char>,
    value: ValueView,
    j: int,
)
    requires
        0 <= j < stack.layers.len(),
    ensures
        ({
            let after = stack.defined(id, AccessPathKind::Local, value);
            &&& after.frames == stack.frames
            &&& after.layers.len() == stack.layers.len()
            &&& after.layers[j] == if j == stack.layers.len() - 1 {
                stack.layers[j].insert(id, value)
            } else {
                stack.layers[j]
            }
            &&& stack.defined_global(engine, id, AccessPathKind::Local, value) == engine
        }),
        stack.defined(id, AccessPathKind::ExplicitGlobal, value) == stack,
        stack.defined_global(engine, id, AccessPathKind::ExplicitGlobal, value) == (EngineView {
            globals: engine.globals.insert(id, value),
            ..engine
        }),
{
}

// Values.

/// An index finds the item in its place, counted from the end if it is negative. There is none out
/// of range, and none in a value that is no list.
pub proof fn indices_find_items(engine: EngineView, value: ValueView, index: i64)
    ensures
        value matches ValueView::List(list) ==> {
            let items = engine.list(list);
            &&& 0 <= index < items.len() ==> engine.at_index(value, index) == Ok::<
                ValueView,
                IndexErrorView,
            >(items[index as int])
            &&& index < 0 && items.len() + index >= 0 ==> engine.at_index(value, index) == Ok::<
                ValueView,
                IndexErrorView,
            >(items[items.len() + index])
            &&& index >= items.len() || items.len() + index < 0 ==> engine.at_index(value, index)
                == Err::<ValueView, IndexErrorView>(IndexErrorView::OutOfRange)
        },
        !(value is List) ==> engine.at_index(value, index) == Err::<ValueView, IndexErrorView>(
            IndexErrorView::CannotIndexType(value.type_text()),
        ),
{
}

/// A key finds the entry under it. There is none under a key that a map lacks, and none in a value
/// that is no map.
pub proof fn keys_find_entries(engine: EngineView, value: ValueView, key: Seq<char>)
    ensures
        value matches ValueView::MapRef(map) ==> {
            &&& engine.entries(map).dom().contains(key) ==> engine.at_key(value, key) == Ok::<
                ValueView,
                KeyErrorView,
            >(engine.entries(map)[key])
            &&& !engine.entries(map).dom().contains(key) ==> engine.at_key(value, key) == Err::<
                ValueView,
                KeyErrorView,
            >(KeyErrorView::KeyNotFound(key))
        },
        !(value is MapRef) ==> engine.at_key(value, key) == Err::<ValueView, KeyErrorView>(
            KeyErrorView::CannotKeyType(value.type_text()),
        ),
{
}

/// Writing to an index changes that item of that list, and nothing else. Writing where there is no
/// item changes nothing.
pub proof fn index_writes_keep_others(
    engine: EngineView,
    list: RantListRef,
    index: i64,
    item: ValueView,
    other: RantListRef,
    place: int,
)
    requires
        list.id < engine.lists.len(),
    ensures
        ({
            let value = ValueView::List(list);
            let (result, after) = engine.with_index(value, index, item);
            let target = if index < 0 {
                engine.list(list).len() + index
            } else {
                index as int
            };
            &&& result is Err ==> after == engine
            &&& after.globals == engine.globals && after.maps == engine.maps && after.options
                == engine.options
            &&& after.lists.len() == engine.lists.len()
            &&& other.id != list.id ==> after.list(other) == engine.list(other)
            &&& after.list(list).len() == engine.list(list).len()
            &&& result is Ok && 0 <= place < engine.list(list).len() ==> after.list(list)[place]
                == if place == target {
                item
            } else {
                engine.list(list)[place]
            }
        }),
{
}

/// Writing to a key changes that entry of that map, and nothing else.
pub proof fn key_writes_keep_others(
    engine: EngineView,
    map: RantMapRef,
    key: Seq<char>,
    item: ValueView,
    other: RantMapRef,
)
    requires
        map.id < engine.maps.len(),
    ensures
        ({
            let (result, after) = engine.with_key(ValueView::MapRef(map), key, item);
            &&& result is Ok
            &&& after.globals == engine.globals && after.lists == engine.lists && after.options
                == engine.options
            &&& after.maps.len() == engine.maps.len()
            &&& after.entries(map) == engine.entries(map).insert(key, item)
            &&& after.maps[map.id as int].proto == engine.maps[map.id as int].proto
            &&& other.id != map.id ==> after.entries(other) == engine.entries(other)
        }),
{
}

// Paths.

/// A path starts with the variable of its first name, or of the text of its first key.
pub proof fn paths_start_with_a_variable(
    m: Machine,
    path: Rc<VarAccessPath>,
    keys: Seq<ValueView>,
    name: Seq<char>,
)
    requires
        path.parts@.len() > 0,
        ({
            ||| path.parts@[0] matches VarAccessComponent::Name(id) && id@ == name
            ||| path.parts@[0] is Expression && keys.len() > 0 && keys[0].text() == name
        }),
    ensures
        follow(m, *path, keys, 1) == get_local(m, name),
{
}

/// Each further step of a path goes into the value that the steps before lead to: by a name or an
/// index, or by the key that belongs to its expression, which is an index if it is an integer and a
/// name otherwise.
pub proof fn paths_go_into_values(
    m: Machine,
    path: Rc<VarAccessPath>,
    keys: Seq<ValueView>,
    count: int,
    value: ValueView,
    item: ValueView,
)
    requires
        1 <= count < path.parts@.len(),
        follow(m, *path, keys, count) == Ok::<ValueView, HaltView>(value),
        match path.parts@[count] {
            VarAccessComponent::Name(id) => m.engine.at_key(value, id@) == Ok::<
                ValueView,
                KeyErrorView,
            >(item),
            VarAccessComponent::Index(index) => m.engine.at_index(value, index) == Ok::<
                ValueView,
                IndexErrorView,
            >(item),
            VarAccessComponent::Expression(_) => {
                let used = expressions(path.parts@.take(count)).len();
                used < keys.len() && match keys[used as int] {
                    ValueView::Integer(index) => m.engine.at_index(value, index) == Ok::<
                        ValueView,
                        IndexErrorView,
                    >(item),
                    key => m.engine.at_key(value, key.text()) == Ok::<ValueView, KeyErrorView>(
                        item,
                    ),
                }
            },
        },
    ensures
        follow(m, *path, keys, count + 1) == Ok::<ValueView, HaltView>(item),
{
}

/// A variable that there is none of cannot be read or assigned to: the error names it, and nothing
/// changes.
pub proof fn missing_variables_are_errors(m: Machine, name: Seq<char>, value: ValueView)
    requires
        is_unknown(m.stack, AccessPathKind::Local, name),
        !m.engine.globals.dom().contains(name),
    ensures
        ({
            let missing = HaltView::Error(
                ErrorView {
                    error_type: ErrorTypeView::InvalidAccess,
                    description: Some("variable '"@ + name + "' not found"@),
                },
            );
            &&& get_local(m, name) == Err::<ValueView, HaltView>(missing)
            &&& set_local(m, name, value) == (Err::<(), HaltView>(missing), m)
        }),
{
    lemma_holder(m.stack.layers, name);
    lemma_pile_holder(m.stack.layers, name);
    assert(set_local(m, name, value).1 =~= m);
}

/// A path goes no further than the first step that fails, and fails as that step does.
pub proof fn paths_fail_where_a_step_fails(
    m: Machine,
    path: Rc<VarAccessPath>,
    keys: Seq<ValueView>,
    count: int,
    value: ValueView,
    more: int,
)
    requires
        1 <= count < more <= path.parts@.len(),
        follow(m, *path, keys, count) == Ok::<ValueView, HaltView>(value),
        match path.parts@[count] {
            VarAccessComponent::Name(id) => m.engine.at_key(value, id@) is Err,
            VarAccessComponent::Index(index) => m.engine.at_index(value, index) is Err,
            VarAccessComponent::Expression(_) => false,
        },
    ensures
        follow(m, *path, keys, more) == Err::<ValueView, HaltView>(
            HaltView::Error(
                ErrorView {
                    error_type: match path.parts@[count] {
                        VarAccessComponent::Name(id) => ErrorTypeView::KeyError(
                            m.engine.at_key(value, id@)->Err_0,
                        ),
                        VarAccessComponent::Index(index) => ErrorTypeView::IndexError(
                            m.engine.at_index(value, index)->Err_0,
                        ),
                        VarAccessComponent::Expression(_) => ErrorTypeView::InvalidAccess,
                    },
                    description: None,
                },
            ),
        ),
    decreases more,
{
    reveal_with_fuel(follow, 2);
    if more > count + 1 {
        paths_fail_where_a_step_fails(m, path, keys, count, value, more - 1);
    }
}

/// Writing along a path of one step assigns to its variable or, where that is asked for, defines
/// it.
pub proof fn short_paths_write_to_variables(
    m: Machine,
    path: Rc<VarAccessPath>,
    keys: Seq<ValueView>,
    name: Seq<char>,
    value: ValueView,
)
    requires
        m.wf(),
        path.parts@.len() == 1,
        ({
            ||| path.parts@[0] matches VarAccessComponent::Name(id) && id@ == name
            ||| path.parts@[0] is Expression && keys.len() > 0 && keys[0].text() == name
        }),
    ensures
        ({
            let (result, after) = write_to(m, *path, true, keys, value);
            &&& result is Ok
            &&& get_local(after, name) == Ok::<ValueView, HaltView>(value)
            &&& after.engine == m.engine && after.vals == m.vals && after.draws == m.draws
        }),
        ({
            let (result, after) = write_to(m, *path, false, keys, value);
            &&& result is Ok <==> get_local(m, name) is Ok
            &&& result is Ok ==> get_local(after, name) == Ok::<ValueView, HaltView>(value)
            &&& result is Err ==> after == m
            &&& after.vals == m.vals && after.draws == m.draws
        }),
{
    local_definition_reads_back(m.stack, m.engine.globals, name, value);
    assignable_iff_readable(m.stack, m.engine.globals, name, AccessPathKind::Local);
    if m.stack.can_assign(m.engine.globals, name, AccessPathKind::Local) {
        assignment_reads_back(m.stack, m.engine, name, AccessPathKind::Local, value);
    } else {
        lemma_holder(m.stack.layers, name);
        assert(write_to(m, *path, false, keys, value).1 =~= m);
    }
}

/// The expressions in a path are its expressions, in order.
pub proof fn expressions_are_in_order(parts: Seq<VarAccessComponent>, i: int)
    requires
        0 <= i < parts.len(),
    ensures
        expressions(parts.take(i)).len() <= expressions(parts).len(),
        parts[i] matches VarAccessComponent::Expression(block) ==> {
            let place = expressions(parts.take(i)).len();
            place < expressions(parts).len() && expressions(parts)[place as int] == block
        },
        !(parts[i] is Expression) ==> expressions(parts.take(i + 1)) == expressions(parts.take(i)),
        parts[i] is Expression ==> expressions(parts.take(i + 1)).len() == expressions(
            parts.take(i),
        ).len() + 1,
        expressions(parts.take(0)).len() == 0,
    decreases parts.len(),
{
    let before = parts.drop_last();
    assert(parts.take(i + 1).drop_last() =~= parts.take(i));
    if i < parts.len() - 1 {
        expressions_are_in_order(before, i);
        assert(before.take(i) =~= parts.take(i));
        assert(before[i] == parts[i]);
    } else {
        assert(before =~= parts.take(i));
        assert(parts.take(i + 1) =~= parts);
    }
}

// Text.

/// The number that digits stand for.
pub open spec fn number_of(digits: Seq<char>) -> nat
    decreases digits.len(),
{
    if digits.len() == 0 {
        0
    } else {
        number_of(digits.drop_last()) * 10 + (digits.last() as nat - 48) as nat
    }
}

/// The decimal text of a number is digits that stand for it, without a needless zero before them.
pub proof fn decimals_stand_for_their_number(n: nat)
    ensures
        decimal(n).len() > 0,
        forall|i: int| 0 <= i < decimal(n).len() ==> '0' <= #[trigger] decimal(n)[i] <= '9',
        number_of(decimal(n)) == n,
        n > 0 ==> decimal(n)[0] != '0',
    decreases n,
{
    reveal_with_fuel(number_of, 3);
    if n < 10 {
        assert(decimal(n).drop_last() =~= Seq::empty());
    } else {
        let q = n / 10;
        let r = n % 10;
        decimals_stand_for_their_number(q);
        assert(decimal(n).drop_last() =~= decimal(q));
        assert(q * 10 + r == n) by (nonlinear_arith)
            requires
                q == n / 10,
                r == n % 10,
        ;
        assert(decimal(n)[0] == decimal(q)[0]);
        assert forall|i: int| 0 <= i < decimal(n).len() implies '0' <= #[trigger] decimal(n)[i]
            <= '9' by {
            if i < decimal(q).len() {
                assert(decimal(n)[i] == decimal(q)[i]);
            }
        }
    }
}

/// The labels that runs stand for.
pub open spec fn unrolled(all: Seq<(Seq<char>, nat)>) -> Seq<Seq<char>>
    decreases all.len(),
{
    if all.len() == 0 {
        Seq::empty()
    } else {
        unrolled(all.drop_last()) + Seq::new(all.last().1, |i: int| all.last().0)
    }
}

/// A stack trace folds equal frames that come one after the other, and loses none: each run has at
/// least one frame, no two neighbouring runs are of equal frames, and together they are the frames.
pub proof fn traces_fold_equal_frames(labels: Seq<Seq<char>>)
    ensures
        unrolled(runs(labels)) == labels,
        forall|i: int| 0 <= i < runs(labels).len() ==> (#[trigger] runs(labels)[i]).1 > 0,
        forall|i: int|
            0 < i < runs(labels).len() ==> (#[trigger] runs(labels)[i]).0 != runs(labels)[i - 1].0,
    decreases labels.len(),
{
    if labels.len() == 0 {
        assert(unrolled(runs(labels)) =~= labels);
    } else {
        let last = labels.last();
        let before = runs(labels.drop_last());
        let all = runs(labels);
        traces_fold_equal_frames(labels.drop_last());
        if before.len() > 0 && before.last().0 == last {
            let count = before.last().1;
            assert(all.drop_last() =~= before.drop_last());
            assert(Seq::new(count + 1, |i: int| last) =~= Seq::new(count, |i: int| last).push(
                last,
            ));
            assert(unrolled(all) =~= unrolled(before).push(last));
            assert forall|i: int| 0 < i < all.len() implies (#[trigger] all[i]).0 != all[i
                - 1].0 by {
                assert(before[i].0 != before[i - 1].0);
            }
        } else {
            assert(all.drop_last() =~= before);
            assert(Seq::new(1, |i: int| last) =~= seq![last]);
            assert(unrolled(all) =~= unrolled(before).push(last));
        }
        assert(labels.drop_last().push(last) =~= labels);
    }
}

/// A stack trace has one line for each run of equal frames, with line breaks between the lines. A
/// line says how many frames it stands for if there is more than one.
pub proof fn traces_have_a_line_for_each_run(all: Seq<(Seq<char>, nat)>, run: (Seq<char>, nat))
    ensures
        all.len() > 0 ==> trace(all.push(run)) == trace(all) + seq!['\n'] + trace(seq![run]),
        trace(seq![run]) == "-> "@ + run.0 + if run.1 == 1 {
            Seq::empty()
        } else {
            " ("@ + decimal(run.1) + " frames)"@
        },
{
    reveal_with_fuel(trace_lines, 2);
    let one = seq![run];
    assert(one.drop_last() =~= Seq::empty());
    assert(trace(one) =~= trace_line(run));
    assert(trace_line(run) =~= "-> "@ + run.0 + if run.1 == 1 {
        Seq::empty()
    } else {
        " ("@ + decimal(run.1) + " frames)"@
    });
    if all.len() > 0 {
        assert(all.push(run).drop_last() =~= all);
        assert(trace(all.push(run)) =~= trace(all) + seq!['\n'] + trace(one));
    }
}

/// The frames in a stack trace are those of the stack, the top one first.
pub proof fn traces_start_at_the_top(stack: StackView, i: int)
    requires
        0 <= i < stack.frames.len(),
    ensures
        stack.labels().len() == stack.frames.len(),
        stack.labels()[i] == stack.frames[stack.frames.len() - 1 - i].text(),
{
}

} // verus!

//! What holds across the operations of the library.

use std::ops::Range;
use std::rc::Rc;
use vstd::prelude::*;
use crate::collections::MapView;
use crate::compiler::grammar::{
    after_fragments, after_key, blank, can_end, capture_path, closing, covering, enter_scope,
    fragment_text, left, past, read_block_element, read_item, read_items, read_sequence, step,
    unflagged, unread, Draft, Input, ItemRead, ParseStop, SequenceEndType, SequenceParseMode,
    SequenceRead, State,
};
use crate::compiler::lang::{AccessPathKind, Parameter, PathTree, PrintFlag, RstTree};
use crate::compiler::lexer::Lexeme;
use crate::compiler::production::sequences::lemma_read_block_element;
use crate::compiler::scopes::{height_in, layer_below};
use crate::engine::EngineView;
use crate::runtime::error::{IndexErrorView, KeyErrorView};
use crate::runtime::frame::{fresh_frame, FrameView};
use crate::runtime::halting::lemma_with_args_frames;
use crate::runtime::intent::IntentView;
use crate::runtime::locals::{holder, lemma_holder, pile, with_local, with_local_below, without_top};
use crate::runtime::machine::{pick, pop_val, push_block_frame, push_val, HaltView, Machine};
use crate::runtime::program::{prevailing, Block};
use crate::runtime::stack::{first_function, lemma_pile_holder, StackView};
use crate::stdlib::{function_names, with_functions, with_stdlib};
use crate::value::{RantFunction, ValueView};

verus! {

// The parser.

/// A sequence of a mode ends with the input or as that mode ends; nothing else ends it.
pub proof fn sequences_end_as_their_mode_says(inp: Input, st: State, mode: SequenceParseMode)
    ensures
        read_sequence(inp, st, mode).0 matches Ok(read) ==> can_end(mode, read.end),
{
    reveal(read_sequence);
    reveal(read_items);
    let inner = enter_scope(st, Set::empty());
    items_end_as_their_mode_says(inp, inner, mode, blank());
}

proof fn items_end_as_their_mode_says(inp: Input, st: State, mode: SequenceParseMode, d: Draft)
    ensures
        read_items(inp, st, mode, d).0 matches Ok(read) ==> can_end(mode, read.end),
    decreases left(inp, st),
{
    reveal(read_items);
    reveal(read_item);
    if st.pos < inp.lexemes.len() {
        let lexeme = inp.lexemes[st.pos as int];
        let (result, st1) = read_item(inp, st, mode, d);
        match result {
            Ok(ItemRead::Flagged(d1)) => {
                items_end_as_their_mode_says(inp, past(st, st1), mode, d1);
            },
            Ok(ItemRead::Item(d1)) => {
                items_end_as_their_mode_says(
                    inp,
                    past(st, st1),
                    mode,
                    unflagged(d1),
                );
            },
            Ok(ItemRead::Ended(read)) => {
                assert(closing(mode, lexeme.token) matches Some(c) && c.end == read.end);
            },
            Err(_) => {},
        }
    }
}

/// A block makes nothing of keys: an element is read as if a colon never ended it, whether or not it
/// starts with a key.
pub proof fn blocks_make_nothing_of_keys(inp: Input, st: State)
    ensures
        read_block_element(inp, st) == read_sequence(inp, st, SequenceParseMode::BlockElementRhs),
{
    lemma_read_block_element(inp, st);
    reveal(read_sequence);
    reveal(read_items);
    let st0 = enter_scope(st, Set::empty());
    if unread(inp, st) {
        keys_go_on(inp, st0, st0, blank());
    }
}

/// What is read of an element up to its key and then from the key on, where reading starts at `st`.
spec fn read_through_key(inp: Input, start: State, st: State, d: Draft) -> (
    Result<SequenceRead, ParseStop>,
    State,
) {
    let (result, st1) = read_items(inp, st, SequenceParseMode::BlockElementAny, d);
    match result {
        Ok(key) if key.end == SequenceEndType::BlockAssocDelim => read_items(
            inp,
            past(start, st1),
            SequenceParseMode::BlockElementRhs,
            after_key(inp, st1, key),
        ),
        _ => (result, st1),
    }
}

proof fn keys_go_on(inp: Input, start: State, st: State, d: Draft)
    requires
        start.pos <= st.pos,
        d.flag == PrintFlag::Plain ==> d.flag_span == (0usize..0usize),
    ensures
        read_through_key(inp, start, st, d) == read_items(
            inp,
            st,
            SequenceParseMode::BlockElementRhs,
            d,
        ),
    decreases left(inp, st),
{
    reveal(read_items);
    reveal(read_item);
    let any = SequenceParseMode::BlockElementAny;
    let rhs = SequenceParseMode::BlockElementRhs;
    if st.pos < inp.lexemes.len() {
        let lexeme = inp.lexemes[st.pos as int];
        let (result, st1) = read_item(inp, st, any, d);
        if lexeme.token is Colon && d.flag == PrintFlag::Plain {
            let (other, st2) = read_item(inp, st, rhs, d);
            let key = result->Ok_0->Ended_0;
            assert(key.end == SequenceEndType::BlockAssocDelim);
            assert(st1 == step(st) && st2 == step(st));
            assert(unflagged(other->Ok_0->Item_0) == after_key(inp, st1, key));
        } else {
            assert(read_item(inp, st, rhs, d) == read_item(inp, st, any, d));
            match result {
                Ok(ItemRead::Flagged(d1)) => keys_go_on(inp, start, past(st, st1), d1),
                Ok(ItemRead::Item(d1)) => keys_go_on(inp, start, past(st, st1), unflagged(d1)),
                _ => {},
            }
        }
    }
}

/// Tokens that are text make a program of just that text, and nothing is reported.
pub proof fn text_tokens_make_text(inp: Input, st: State)
    requires
        st.pos < inp.lexemes.len(),
        !inp.debug,
        forall|i: int|
            st.pos <= i < inp.lexemes.len() ==> ((#[trigger] inp.lexemes[i]).token is Fragment
                || inp.lexemes[i].token is Escape),
    ensures
        ({
            let (result, after) = read_sequence(inp, st, SequenceParseMode::TopLevel);
            &&& result matches Ok(read) && read.tree.elements == seq![
                RstTree::Fragment(fragment_text(inp.lexemes, st.pos)),
            ] && read.printing
            &&& after.pos == inp.lexemes.len()
            &&& after.reports == st.reports
        }),
{
    reveal(read_sequence);
    reveal_with_fuel(read_items, 3);
    reveal(read_item);
    let inner = enter_scope(st, Set::empty());
    text_runs_to_the_end(inp.lexemes, inner.pos + 1);
    let (item, after) = read_item(inp, inner, SequenceParseMode::TopLevel, blank());
    assert(after.pos == inp.lexemes.len());
    let d = item->Ok_0->Item_0;
    assert(d.nodes =~= seq![RstTree::Fragment(fragment_text(inp.lexemes, st.pos))]);
    let d1 = unflagged(d);
    assert(past(inner, after) == after);
    assert(read_items(inp, after, SequenceParseMode::TopLevel, d1).0->Ok_0.tree.elements
        == d1.nodes);
}

/// Text ends at the first token that ends a sequence of its mode. The sequence is just that text,
/// and nothing is reported.
pub proof fn text_ends_at_its_terminator(
    inp: Input,
    st: State,
    mode: SequenceParseMode,
    end: nat,
)
    requires
        st.pos < end < inp.lexemes.len(),
        !inp.debug,
        mode != SequenceParseMode::SingleItem,
        forall|i: int|
            st.pos <= i < end ==> ((#[trigger] inp.lexemes[i]).token is Fragment
                || inp.lexemes[i].token is Escape),
        closing(mode, inp.lexemes[end as int].token) is Some,
    ensures
        ({
            let c = closing(mode, inp.lexemes[end as int].token)->Some_0;
            let (result, after) = read_sequence(inp, st, mode);
            &&& result matches Ok(read) && read.tree.elements == seq![
                RstTree::Fragment(fragment_text(inp.lexemes, st.pos)),
            ] && read.tree.name == c.name && read.end == c.end && read.printing
            &&& after.pos == end + 1
            &&& after.reports == st.reports
        }),
{
    reveal(read_sequence);
    reveal_with_fuel(read_items, 3);
    reveal(read_item);
    let inner = enter_scope(st, Set::empty());
    text_runs_up_to(inp.lexemes, inner.pos + 1, end);
    let (item, after) = read_item(inp, inner, mode, blank());
    assert(after.pos == end);
    let d = item->Ok_0->Item_0;
    assert(d.nodes =~= seq![RstTree::Fragment(fragment_text(inp.lexemes, st.pos))]);
    let d1 = unflagged(d);
    assert(past(inner, after) == after);
    assert(read_items(inp, after, mode, d1).0->Ok_0.tree.elements == d1.nodes);
}

proof fn text_runs_up_to(lexemes: Seq<Lexeme>, pos: nat, end: nat)
    requires
        pos <= end < lexemes.len(),
        forall|i: int|
            pos <= i < end ==> ((#[trigger] lexemes[i]).token is Fragment
                || lexemes[i].token is Escape),
        !(lexemes[end as int].token is Fragment),
        !(lexemes[end as int].token is Escape),
    ensures
        after_fragments(lexemes, pos) == end,
    decreases end - pos,
{
    if pos < end {
        text_runs_up_to(lexemes, pos + 1, end);
    }
}

proof fn text_runs_to_the_end(lexemes: Seq<Lexeme>, pos: nat)
    requires
        pos <= lexemes.len(),
        forall|i: int|
            pos <= i < lexemes.len() ==> ((#[trigger] lexemes[i]).token is Fragment
                || lexemes[i].token is Escape),
    ensures
        after_fragments(lexemes, pos) == lexemes.len(),
    decreases lexemes.len() - pos,
{
    if pos < lexemes.len() {
        text_runs_to_the_end(lexemes, pos + 1);
    }
}

/// Only local paths capture variables.
pub proof fn only_local_paths_capture(st: State, path: PathTree)
    requires
        !(path.kind is Local),
    ensures
        capture_path(st, path) == st,
{
}

/// A variable that is defined inside the innermost function body is not captured by it.
pub proof fn own_variables_are_not_captured(st: State, path: PathTree, layer: int)
    requires
        st.captures.len() > 0,
        st.captures.last().0 <= layer < st.scopes.len(),
        path.variable() matches Some(id) && st.scopes[layer].contains(id),
    ensures
        capture_path(st, path) == st,
{
    height_is_highest(st.scopes, path.variable()->Some_0, layer);
}

/// The highest scope that holds a name is no lower than any that does.
pub proof fn height_is_highest(scopes: Seq<Set<Seq<char>>>, id: Seq<char>, layer: int)
    requires
        0 <= layer < scopes.len(),
        scopes[layer].contains(id),
    ensures
        height_in(scopes, id) matches Some(height) && layer <= height < scopes.len(),
    decreases scopes.len(),
{
    if !scopes.last().contains(id) {
        height_is_highest(scopes.drop_last(), id, layer);
    }
}

/// A variable that no scope holds is captured by a function body that has a scope around it.
pub proof fn unknown_variables_are_captured(st: State, path: PathTree)
    requires
        st.captures.len() > 0,
        st.captures.last().0 > 0,
        path.kind is Local,
        path.variable() matches Some(id) && height_in(st.scopes, id) is None,
    ensures
        capture_path(st, path).captures.last().1.contains(path.variable()->Some_0),
{
}

/// The range that covers two ranges holds both, and is the smallest that does.
pub proof fn covering_is_smallest(a: Range<usize>, b: Range<usize>, c: Range<usize>)
    requires
        c.start <= a.start,
        c.start <= b.start,
        c.end >= a.end,
        c.end >= b.end,
    ensures
        covering(a, b).start <= a.start,
        covering(a, b).start <= b.start,
        covering(a, b).end >= a.end,
        covering(a, b).end >= b.end,
        c.start <= covering(a, b).start,
        covering(a, b).end <= c.end,
{
}

// Maps and lists.

/// What was set under a key is read back, and nothing else changes.
pub proof fn map_reads_back(map: MapView, key: Seq<char>, value: ValueView, other: Seq<char>)
    ensures
        ({
            let entries = map.entries.insert(key, value);
            &&& entries.dom().contains(key)
            &&& entries[key] == value
            &&& other != key ==> entries.dom().contains(other) == map.entries.dom().contains(other)
            &&& other != key && map.entries.dom().contains(other) ==> entries[other]
                == map.entries[other]
        }),
{
}

/// Taking a key away after setting it leaves the map as it was without the key.
pub proof fn map_forgets(map: MapView, key: Seq<char>, value: ValueView)
    ensures
        map.entries.insert(key, value).remove(key) == map.entries.remove(key),
        !map.entries.remove(key).dom().contains(key),
{
    assert(map.entries.insert(key, value).remove(key) =~= map.entries.remove(key));
}

/// What was written to an index is read back from it.
pub proof fn index_reads_back(engine: EngineView, list: ValueView, index: i64, item: ValueView)
    requires
        engine.with_index(list, index, item).0 is Ok,
    ensures
        engine.with_index(list, index, item).1.at_index(list, index) == Ok::<
            ValueView,
            IndexErrorView,
        >(item),
{
}

/// An index can be written to exactly if it can be read.
pub proof fn index_is_writable_iff_readable(
    engine: EngineView,
    value: ValueView,
    index: i64,
    item: ValueView,
)
    ensures
        engine.with_index(value, index, item).0 is Ok <==> engine.at_index(value, index) is Ok,
{
}

/// A negative index counts from the end of the list.
pub proof fn negative_index_counts_from_end(engine: EngineView, value: ValueView, index: i64)
    requires
        value matches ValueView::List(list) && -(engine.list(list).len() as int) <= index < 0
            && engine.list(list).len() <= i64::MAX,
    ensures
        engine.at_index(value, index) == engine.at_index(
            value,
            (engine.list(value->List_0).len() + index) as i64,
        ),
{
}

/// What was written to a key is read back from it.
pub proof fn key_reads_back(engine: EngineView, map: ValueView, key: Seq<char>, item: ValueView)
    requires
        engine.with_key(map, key, item).0 is Ok,
    ensures
        engine.with_key(map, key, item).1.at_key(map, key) == Ok::<
            ValueView,
            KeyErrorView,
        >(item),
{
}

// The call stack.

/// With local variables defined one after the other.
pub open spec fn with_definitions(
    stack: StackView,
    definitions: Seq<(Seq<char>, ValueView)>,
) -> StackView
    decreases definitions.len(),
{
    if definitions.len() == 0 {
        stack
    } else {
        with_definitions(stack, definitions.drop_last()).defined(
            definitions.last().0,
            AccessPathKind::Local,
            definitions.last().1,
        )
    }
}

/// Popping a frame undoes pushing it, whatever was defined locally in between; but the names stay
/// known.
pub proof fn pop_undoes_push(
    stack: StackView,
    frame: FrameView,
    definitions: Seq<(Seq<char>, ValueView)>,
)
    requires
        stack.wf(),
    ensures
        stack.pushed(frame).popped() == stack,
        ({
            let after = with_definitions(stack.pushed(frame), definitions).popped();
            &&& after.frames == stack.frames
            &&& after.layers == stack.layers
        }),
{
    assert(stack.pushed(frame).popped() =~= stack);
    definitions_stay_on_top(stack.pushed(frame), definitions);
}

/// Local definitions change the top layer only.
proof fn definitions_stay_on_top(stack: StackView, definitions: Seq<(Seq<char>, ValueView)>)
    requires
        stack.layers.len() > 0,
    ensures
        ({
            let after = with_definitions(stack, definitions);
            &&& after.frames == stack.frames
            &&& after.layers.len() == stack.layers.len()
            &&& after.layers.drop_last() == stack.layers.drop_last()
        }),
    decreases definitions.len(),
{
    if definitions.len() > 0 {
        definitions_stay_on_top(stack, definitions.drop_last());
        assert(with_definitions(stack, definitions).layers.drop_last()
            =~= stack.layers.drop_last());
    }
}

/// A variable that was defined locally has the value that it was defined with.
pub proof fn local_definition_reads_back(
    stack: StackView,
    globals: Map<Seq<char>, ValueView>,
    id: Seq<char>,
    value: ValueView,
)
    requires
        stack.wf(),
    ensures
        stack.defined(id, AccessPathKind::Local, value).lookup(
            globals,
            id,
            AccessPathKind::Local,
            false,
        ) == Some(value),
{
    let layers = stack.defined(id, AccessPathKind::Local, value).layers;
    lemma_pile_holder(layers, id);
}

/// A variable that was defined in a scope further out has the value that it was defined with, seen
/// from there, unless a scope still further out holds a variable of the same name and that scope
/// does not.
pub proof fn outer_definition_reads_back(
    stack: StackView,
    globals: Map<Seq<char>, ValueView>,
    id: Seq<char>,
    value: ValueView,
    depth: usize,
)
    requires
        stack.wf(),
        depth < stack.layers.len(),
        ({
            let target = layer_below(stack.layers.len(), depth as nat);
            stack.layers[target].dom().contains(id) || holder(stack.layers.take(target), id) is None
        }),
    ensures
        stack.defined(id, AccessPathKind::Descope(depth), value).lookup(
            globals,
            id,
            AccessPathKind::Descope(depth),
            false,
        ) == Some(value),
{
    let target = layer_below(stack.layers.len(), depth as nat);
    let after = with_local(stack.layers, target, id, value);
    let seen = without_top(after, depth as nat);
    lemma_holder(stack.layers.take(target), id);
    assert(with_local_below(stack.layers, id, value, depth as nat) == after);
    assert(seen.last() == after[target]);
    lemma_pile_holder(seen, id);
}

/// A global variable has the value that it was defined with, unless a local one hides it.
pub proof fn global_definition_reads_back(
    stack: StackView,
    engine: EngineView,
    id: Seq<char>,
    value: ValueView,
)
    ensures
        stack.lookup(
            stack.defined_global(engine, id, AccessPathKind::ExplicitGlobal, value).globals,
            id,
            AccessPathKind::ExplicitGlobal,
            false,
        ) == Some(value),
{
}

/// What is found by a global access does not depend on the local variables.
pub proof fn global_access_ignores_locals(
    one: StackView,
    other: StackView,
    globals: Map<Seq<char>, ValueView>,
    id: Seq<char>,
    prefer_function: bool,
)
    ensures
        one.lookup(globals, id, AccessPathKind::ExplicitGlobal, prefer_function) == other.lookup(
            globals,
            id,
            AccessPathKind::ExplicitGlobal,
            prefer_function,
        ),
{
}

/// A variable that can be assigned to has the value that was assigned.
pub proof fn assignment_reads_back(
    stack: StackView,
    engine: EngineView,
    id: Seq<char>,
    access: AccessPathKind,
    value: ValueView,
)
    requires
        stack.can_assign(engine.globals, id, access),
    ensures
        stack.assigned(id, access, value).lookup(
            stack.assigned_global(engine, id, access, value).globals,
            id,
            access,
            false,
        ) == Some(value),
{
    let before = stack.in_reach(access);
    let after = stack.assigned(id, access, value).in_reach(access);
    lemma_holder(before, id);
    lemma_holder(after, id);
    lemma_pile_holder(after, id);
    if let Some(i) = holder(before, id) {
        assert(after =~= with_local(before, i, id, value));
        let j = holder(after, id)->Some_0;
        assert(after[i].dom().contains(id));
        if i < j {
            assert(before[j].dom().contains(id));
        }
    } else {
        assert(after == before);
    }
}

/// A variable can be assigned to exactly if it can be read.
pub proof fn assignable_iff_readable(
    stack: StackView,
    globals: Map<Seq<char>, ValueView>,
    id: Seq<char>,
    access: AccessPathKind,
)
    ensures
        stack.can_assign(globals, id, access) <==> stack.lookup(globals, id, access, false) is Some,
{
    lemma_pile_holder(stack.in_reach(access), id);
}

/// Assigning to a variable leaves the others alone.
pub proof fn assignment_keeps_others(
    stack: StackView,
    engine: EngineView,
    id: Seq<char>,
    other: Seq<char>,
    access: AccessPathKind,
    value: ValueView,
    prefer_function: bool,
)
    requires
        id != other,
    ensures
        stack.assigned(id, access, value).lookup(
            stack.assigned_global(engine, id, access, value).globals,
            other,
            access,
            prefer_function,
        ) == stack.lookup(engine.globals, other, access, prefer_function),
{
    let before = stack.in_reach(access);
    let after = stack.assigned(id, access, value).in_reach(access);
    lemma_holder(before, id);
    if let Some(i) = holder(before, id) {
        assert(after =~= with_local(before, i, id, value));
        pile_keeps_others(before, i, id, other, value);
    }
}

proof fn pile_keeps_others(
    layers: Seq<Map<Seq<char>, ValueView>>,
    i: int,
    id: Seq<char>,
    other: Seq<char>,
    value: ValueView,
)
    requires
        0 <= i < layers.len(),
        id != other,
    ensures
        pile(with_local(layers, i, id, value), other)
            == pile(layers, other),
    decreases layers.len(),
{
    let after = with_local(layers, i, id, value);
    if i == layers.len() - 1 {
        assert(after.drop_last() =~= layers.drop_last());
    } else {
        assert(after.drop_last() =~= with_local(layers.drop_last(), i, id, value));
        pile_keeps_others(layers.drop_last(), i, id, other, value);
    }
}

/// If a function is wanted and the name has one, a function is found.
pub proof fn functions_are_found(
    stack: StackView,
    globals: Map<Seq<char>, ValueView>,
    id: Seq<char>,
    access: AccessPathKind,
    layer: int,
)
    requires
        0 <= layer < stack.in_reach(access).len(),
        stack.in_reach(access)[layer].dom().contains(id),
        stack.in_reach(access)[layer][id] is Function,
    ensures
        stack.lookup(globals, id, access, true) matches Some(value) && value is Function,
{
    let values = pile(stack.in_reach(access), id);
    pile_holds(stack.in_reach(access), id, layer);
    let place = choose|place: int|
        0 <= place < values.len() && values[place] == stack.in_reach(access)[layer][id];
    function_among(values, place);
}

proof fn pile_holds(layers: Seq<Map<Seq<char>, ValueView>>, id: Seq<char>, layer: int)
    requires
        0 <= layer < layers.len(),
        layers[layer].dom().contains(id),
    ensures
        exists|place: int|
            0 <= place < pile(layers, id).len()
                && #[trigger] pile(layers, id)[place] == layers[layer][id],
    decreases layers.len(),
{
    let lower = pile(layers.drop_last(), id);
    let all = pile(layers, id);
    if layer == layers.len() - 1 {
        assert(all[0] == layers[layer][id]);
    } else {
        pile_holds(layers.drop_last(), id, layer);
        let place = choose|place: int|
            0 <= place < lower.len() && #[trigger] lower[place] == layers[layer][id];
        if layers.last().dom().contains(id) {
            assert(all[place + 1] == lower[place]);
        } else {
            assert(all[place] == lower[place]);
        }
    }
}

proof fn function_among(values: Seq<ValueView>, place: int)
    requires
        0 <= place < values.len(),
        values[place] is Function,
    ensures
        first_function(values) matches Some(value) && value is Function,
    decreases values.len(),
{
    if !(values[0] is Function) {
        assert(values.drop_first()[place - 1] == values[place]);
        function_among(values.drop_first(), place - 1);
    }
}

// Frames.

/// An intent that is put first is the one taken next.
pub proof fn intent_put_first_is_next(frame: FrameView, intent: IntentView)
    ensures
        frame.with_intent(intent).intents[0] == intent,
        frame.with_intent(intent).intents.drop_first() == frame.intents,
{
    assert(frame.with_intent(intent).intents.drop_first() =~= frame.intents);
}

/// An intent that is put last waits for the others.
pub proof fn intent_put_last_waits(frame: FrameView, intent: IntentView)
    requires
        frame.intents.len() > 0,
    ensures
        frame.intents.push(intent)[0] == frame.intents[0],
        frame.intents.push(intent).last() == intent,
{
}

/// What a sinked block prints goes nowhere: its frame has no output, and nobody is to print it.
pub proof fn sinked_blocks_are_silent(
    m: Machine,
    block: Rc<Block>,
    override_print: bool,
    params: Seq<Parameter>,
    args: Seq<ValueView>,
    flag: PrintFlag,
)
    requires
        m.stack.frames.len() > 0,
        prevailing(block.flag, flag) == PrintFlag::Sink,
        push_block_frame(m, block, override_print, params, args, flag).0 is Ok,
    ensures
        ({
            let frames = push_block_frame(
                m,
                block,
                override_print,
                params,
                args,
                flag,
            ).1.stack.frames;
            &&& frames.drop_last() == m.stack.frames
            &&& frames.last().output is None
        }),
{
    let elem = block.elements@[pick(m, block)];
    let pushed = m.stack.pushed(fresh_frame(elem, false));
    lemma_with_args_frames(pushed, params, args);
    assert(pushed.frames.drop_last() =~= m.stack.frames);
}

/// A value that was left on the value stack makes it one higher and is the one taken next.
pub proof fn value_stack_gives_back(m: Machine, value: ValueView)
    requires
        push_val(m, value).0 is Ok,
    ensures
        push_val(m, value).0 == Ok::<nat, HaltView>(m.vals.len() + 1),
        pop_val(push_val(m, value).1) == (
            Ok::<ValueView, HaltView>(value),
            m,
        ),
{
    assert(m.vals.push(value).drop_last() =~= m.vals);
}

// The standard library.

/// Loading the standard library leaves variables of other names alone.
pub proof fn stdlib_keeps_others(
    globals: Map<Seq<char>, ValueView>,
    funcs: Seq<Rc<RantFunction>>,
    require: Option<Rc<RantFunction>>,
    version: Seq<char>,
    id: Seq<char>,
)
    requires
        forall|i: int| 0 <= i < function_names().len() ==> (#[trigger] function_names()[i])@ != id,
        id != "require"@,
        id != "RANT_VERSION"@,
    ensures
        ({
            let loaded = with_stdlib(globals, funcs, require, version);
            &&& loaded.dom().contains(id) == globals.dom().contains(id)
            &&& globals.dom().contains(id) ==> loaded[id] == globals[id]
        }),
{
    functions_keep_others(globals, funcs, function_names().len() as int, id);
}

proof fn functions_keep_others(
    globals: Map<Seq<char>, ValueView>,
    funcs: Seq<Rc<RantFunction>>,
    count: int,
    id: Seq<char>,
)
    requires
        count <= function_names().len(),
        forall|i: int| 0 <= i < function_names().len() ==> (#[trigger] function_names()[i])@ != id,
    ensures
        with_functions(globals, funcs, count).dom().contains(id) == globals.dom().contains(id),
        globals.dom().contains(id) ==> with_functions(globals, funcs, count)[id] == globals[id],
    decreases count,
{
    if count > 0 {
        functions_keep_others(globals, funcs, count - 1, id);
        assert(function_names()[count - 1]@ != id);
    }
}

/// Every function of the standard library can be called by its name once it is loaded.
pub proof fn stdlib_functions_are_callable(
    globals: Map<Seq<char>, ValueView>,
    funcs: Seq<Rc<RantFunction>>,
    require: Option<Rc<RantFunction>>,
    version: Seq<char>,
    index: int,
)
    requires
        0 <= index < function_names().len(),
        function_names()[index]@ != "RANT_VERSION"@,
    ensures
        ({
            let name = function_names()[index]@;
            &&& with_stdlib(globals, funcs, require, version).dom().contains(name)
            &&& with_stdlib(globals, funcs, require, version)[name] is Function
        }),
{
    function_stays_callable(globals, funcs, function_names().len() as int, index);
}

proof fn function_stays_callable(
    globals: Map<Seq<char>, ValueView>,
    funcs: Seq<Rc<RantFunction>>,
    count: int,
    index: int,
)
    requires
        0 <= index < count <= function_names().len(),
    ensures
        ({
            let name = function_names()[index]@;
            &&& with_functions(globals, funcs, count).dom().contains(name)
            &&& with_functions(globals, funcs, count)[name] is Function
        }),
    decreases count,
{
    if index < count - 1 {
        function_stays_callable(globals, funcs, count - 1, index);
    }
}

} // verus!

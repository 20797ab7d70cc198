//! What holds of every run of the virtual machine.

use std::rc::Rc;
use vstd::prelude::*;
use crate::collections::{MapView, RantMapRef};
use crate::compiler::lang::{Parameter, PrintFlag};
use crate::runtime::assignment::{value_goes_under_its_key, with_vals};
use crate::runtime::frame::{fresh_frame, FrameView};
use crate::runtime::halting::{lemma_steps_compose, lemma_with_args_frames};
use crate::runtime::intent::{IntentView, SourceView};
use crate::runtime::machine::{
    build_dynamic_getter, build_dynamic_setter, build_list, build_map, call, get_local, invoke,
    pick, pop_val, pop_vals, push_block_frame, push_expr, push_frame, step, step_element,
    step_intent, steps, HaltView, Machine, ProgressView, MAX_STACK_SIZE,
};
use crate::runtime::output::{joined, rendered, PieceView};
use crate::runtime::program::{Block, MapKeyExpr, Sequence, VarAccessPath, RST};
use crate::runtime::run::{lemma_outcome, run_outcome};
use crate::value::{RantFunction, ValueView};

verus! {

/// Neither stack is larger than it may be.
pub open spec fn bounded(m: Machine) -> bool {
    &&& m.stack.frames.len() <= MAX_STACK_SIZE
    &&& m.vals.len() <= MAX_STACK_SIZE
}

broadcast proof fn push_frame_is_bounded(
    m: Machine,
    callee: Rc<Sequence>,
    use_output: bool,
    params: Seq<Parameter>,
    args: Seq<ValueView>,
)
    ensures
        bounded(m) ==> bounded((#[trigger] push_frame(m, callee, use_output, params, args)).1),
{
    lemma_with_args_frames(m.stack.pushed(fresh_frame(callee, use_output)), params, args);
}

broadcast proof fn push_block_frame_is_bounded(
    m: Machine,
    block: Rc<Block>,
    override_print: bool,
    params: Seq<Parameter>,
    args: Seq<ValueView>,
    flag: PrintFlag,
)
    ensures
        bounded(m) && m.stack.frames.len() > 0 ==> bounded(
            (#[trigger] push_block_frame(m, block, override_print, params, args, flag)).1,
        ),
{
    broadcast use push_frame_is_bounded;

}

proof fn build_dynamic_getter_is_bounded(
    m: Machine,
    path: Rc<VarAccessPath>,
    dynamic_key_count: nat,
    pending_exprs: Seq<Rc<Block>>,
    override_print: bool,
)
    requires
        bounded(m),
        m.stack.frames.len() > 0,
    ensures
        bounded(build_dynamic_getter(m, path, dynamic_key_count, pending_exprs, override_print).1),
{
    broadcast use push_frame_is_bounded, push_block_frame_is_bounded;

}

proof fn build_dynamic_setter_is_bounded(
    m: Machine,
    path: Rc<VarAccessPath>,
    auto_def: bool,
    expr_count: nat,
    pending_exprs: Seq<Rc<Block>>,
    val_source: SourceView,
)
    requires
        bounded(m),
        m.stack.frames.len() > 0,
    ensures
        bounded(build_dynamic_setter(m, path, auto_def, expr_count, pending_exprs, val_source).1),
{
    broadcast use push_frame_is_bounded, push_block_frame_is_bounded;

}

proof fn invoke_is_bounded(
    m: Machine,
    arg_exprs: Rc<Vec<Rc<Sequence>>>,
    eval_count: nat,
    flag: PrintFlag,
)
    requires
        bounded(m),
        m.stack.frames.len() > 0,
    ensures
        bounded(invoke(m, arg_exprs, eval_count, flag).1),
{
    broadcast use push_frame_is_bounded, push_block_frame_is_bounded;

}

proof fn build_list_is_bounded(
    m: Machine,
    init: Rc<Vec<Rc<Sequence>>>,
    index: nat,
    list: Seq<ValueView>,
)
    requires
        bounded(m),
        m.stack.frames.len() > 0,
    ensures
        bounded(build_list(m, init, index, list).1),
{
    broadcast use push_frame_is_bounded, push_block_frame_is_bounded;

}

proof fn build_map_is_bounded(
    m: Machine,
    init: Rc<Vec<(MapKeyExpr, Rc<Sequence>)>>,
    pair_index: nat,
    map: MapView,
)
    requires
        bounded(m),
        m.stack.frames.len() > 0,
    ensures
        bounded(build_map(m, init, pair_index, map).1),
{
    broadcast use push_frame_is_bounded, push_block_frame_is_bounded;

}

proof fn intent_is_bounded(m: Machine, intent: IntentView)
    requires
        bounded(m),
        m.stack.frames.len() > 0,
    ensures
        bounded(step_intent(m, intent).1),
{
    reveal(step_intent);
    match intent {
        IntentView::BuildDynamicGetter {
            path,
            dynamic_key_count,
            pending_exprs,
            override_print,
        } => build_dynamic_getter_is_bounded(
            m,
            path,
            dynamic_key_count,
            pending_exprs,
            override_print,
        ),
        IntentView::BuildDynamicSetter {
            path,
            auto_def,
            expr_count,
            pending_exprs,
            val_source,
        } => build_dynamic_setter_is_bounded(
            m,
            path,
            auto_def,
            expr_count,
            pending_exprs,
            val_source,
        ),
        IntentView::Invoke { arg_exprs, eval_count, flag } => invoke_is_bounded(
            m,
            arg_exprs,
            eval_count,
            flag,
        ),
        IntentView::BuildList { init, index, list } => build_list_is_bounded(m, init, index, list),
        IntentView::BuildMap { init, pair_index, map } => build_map_is_bounded(
            m,
            init,
            pair_index,
            map,
        ),
        _ => {},
    }
}

proof fn element_is_bounded(m: Machine, element: Rc<RST>)
    requires
        bounded(m),
        m.stack.frames.len() > 0,
    ensures
        bounded(step_element(m, element).1),
{
    broadcast use push_frame_is_bounded, push_block_frame_is_bounded;

    reveal(step_element);
}

/// No step makes a stack larger than it may be.
pub proof fn stacks_stay_bounded(m: Machine)
    requires
        bounded(m),
    ensures
        bounded(step(m).1),
{
    if m.stack.frames.len() > 0 {
        let top = m.top();
        if top.intents.len() > 0 {
            intent_is_bounded(
                m.with_top(FrameView { intents: top.intents.drop_first(), ..top }),
                top.intents[0],
            );
        } else if let (Some(element), frame) = top.advanced() {
            element_is_bounded(m.with_top(frame), element);
        }
    }
}

/// No run makes a stack larger than it may be.
pub proof fn runs_stay_bounded(m: Machine, count: nat)
    requires
        bounded(m),
    ensures
        bounded(steps(m, count).1),
    decreases count,
{
    if count > 0 {
        stacks_stay_bounded(m);
        runs_stay_bounded(step(m).1, (count - 1) as nat);
    }
}

/// The arguments that were evaluated arrive in order: a function is called with the values that lie
/// above it on the value stack, the lowest one first.
pub proof fn arguments_arrive_in_order(
    m: Machine,
    func: Rc<RantFunction>,
    args: Seq<ValueView>,
    arg_exprs: Rc<Vec<Rc<Sequence>>>,
    flag: PrintFlag,
)
    requires
        args.len() == arg_exprs@.len(),
    ensures
        invoke(
            with_vals(m, seq![ValueView::Function(func)] + args),
            arg_exprs,
            arg_exprs@.len(),
            flag,
        ) == call(m, func, args, flag),
{
    let start = with_vals(m, seq![ValueView::Function(func)] + args);
    let (popped, m1) = pop_vals(start, args.len());
    assert(popped->Ok_0.reverse() =~= args);
    assert(m1.vals =~= m.vals.push(ValueView::Function(func)));
    assert(m1.vals.drop_last() =~= m.vals);
    assert(pop_val(m1).1 =~= m);
}

/// Whether a sequence is text and whitespace, and nothing else.
pub open spec fn is_text(root: Rc<Sequence>) -> bool {
    forall|i: int|
        0 <= i < root.elements@.len() ==> (*(#[trigger] root.elements@[i]) is Fragment
            || *root.elements@[i] is Whitespace)
}

/// What the first `count` elements of a text print.
pub open spec fn printed(root: Rc<Sequence>, count: nat) -> Seq<PieceView> {
    Seq::new(
        count,
        |i: int|
            match *root.elements@[i] {
                RST::Fragment(s) => PieceView::Fragment(s@),
                RST::Whitespace(s) => PieceView::Whitespace(s@),
                _ => PieceView::Value(ValueView::Empty),
            },
    )
}

/// A frame that has run the first `count` elements of a text.
spec fn text_frame(root: Rc<Sequence>, count: nat) -> FrameView {
    FrameView {
        pc: if count == 0 {
            0
        } else {
            (count - 1) as nat
        },
        started: count > 0,
        output: Some(printed(root, count)),
        ..fresh_frame(root, true)
    }
}

proof fn text_frame_runs(m: Machine, root: Rc<Sequence>, count: nat)
    requires
        is_text(root),
        count <= root.elements@.len(),
        m.stack.frames.len() > 0,
        m.top() == fresh_frame(root, true),
    ensures
        steps(m, count) == (ProgressView::Running, m.with_top(text_frame(root, count))),
    decreases count,
{
    reveal(step_element);
    if count == 0 {
        assert(printed(root, 0) =~= Seq::empty());
        assert(m.with_top(text_frame(root, 0)) =~= m);
    } else {
        let before = (count - 1) as nat;
        text_frame_runs(m, root, before);
        let m1 = m.with_top(text_frame(root, before));
        lemma_steps_compose(m, before, 1);
        reveal_with_fuel(steps, 2);
        assert(steps(m1, 1) == step(m1));
        assert(m1.top() == text_frame(root, before));
        let element = root.elements@[before as int];
        assert(m1.top().advanced().0 == Some(element));
        assert(printed(root, count) =~= printed(root, before).push(
            match *element {
                RST::Fragment(s) => PieceView::Fragment(s@),
                RST::Whitespace(s) => PieceView::Whitespace(s@),
                _ => PieceView::Value(ValueView::Empty),
            },
        ));
        assert(step(m1).1 =~= m.with_top(text_frame(root, count)));
    }
}

/// The value that a text evaluates to.
pub open spec fn text_value(root: Rc<Sequence>) -> ValueView {
    rendered(printed(root, root.elements@.len()))
}

proof fn text_value_is_text(root: Rc<Sequence>)
    requires
        is_text(root),
    ensures
        text_value(root).text() == joined(printed(root, root.elements@.len())),
        root.elements@.len() > 0 ==> text_value(root) == ValueView::Text(
            joined(printed(root, root.elements@.len())),
        ),
{
    let len = root.elements@.len();
    if len > 0 {
        assert(printed(root, len)[0] == match *root.elements@[0] {
            RST::Fragment(s) => PieceView::Fragment(s@),
            RST::Whitespace(s) => PieceView::Whitespace(s@),
            _ => PieceView::Value(ValueView::Empty),
        });
    }
}

/// A frame that is to run a text is gone after as many steps as the text has elements and one more,
/// and leaves the text on the value stack. Nothing else changes.
pub proof fn text_evaluates(m: Machine, root: Rc<Sequence>)
    requires
        is_text(root),
        m.stack.frames.len() > 0,
        m.top() == fresh_frame(root, true),
        m.vals.len() < MAX_STACK_SIZE,
    ensures
        steps(m, root.elements@.len() + 1) == (
            ProgressView::Running,
            Machine {
                stack: m.stack.popped(),
                vals: m.vals.push(text_value(root)),
                ..m
            },
        ),
{
    let len = root.elements@.len();
    text_frame_runs(m, root, len);
    let m1 = m.with_top(text_frame(root, len));
    lemma_steps_compose(m, len, 1);
    reveal_with_fuel(steps, 2);
    assert(steps(m1, 1) == step(m1));
    assert(m1.top() == text_frame(root, len));
    assert(m1.top().advanced().0 is None);
    assert(m1.stack.popped() =~= m.stack.popped());
}

/// A program of text and whitespace prints just that, and needs no random number.
pub proof fn text_prints_itself(m: Machine, root: Rc<Sequence>)
    requires
        is_text(root),
        m.stack.frames.len() == 0,
        m.vals.len() < MAX_STACK_SIZE,
    ensures
        run_outcome(m, root).0 == ProgressView::Finished(
            joined(printed(root, root.elements@.len())),
        ),
{
    let len = root.elements@.len();
    let m1 = push_expr(m, root).1;
    assert(m1.stack.frames.last() == fresh_frame(root, true));
    text_evaluates(m1, root);
    text_value_is_text(root);
    let m2 = steps(m1, len + 1).1;
    assert(m2.stack.frames.len() == 0);
    reveal_with_fuel(steps, 2);
    assert(steps(m2, 1) == step(m2));
    lemma_steps_compose(m1, len + 1, 1);
    lemma_outcome(m1, len + 2);
}

/// The element of the key expression `i` that the random numbers pick.
pub open spec fn chosen(draws: Seq<u64>, exprs: Seq<Rc<Block>>, i: int) -> Rc<Sequence> {
    exprs[i].elements@[draws[i] as int % exprs[i].elements@.len() as int]
}

/// How many steps the first `count` key expressions of a setter take.
pub open spec fn key_steps(draws: Seq<u64>, exprs: Seq<Rc<Block>>, count: nat) -> nat
    decreases count,
{
    if count == 0 {
        0
    } else {
        let last = (count - 1) as nat;
        key_steps(draws, exprs, last) + chosen(draws, exprs, last as int).elements@.len() + 2
    }
}

/// The values of the first `count` key expressions of a setter.
pub open spec fn key_values(draws: Seq<u64>, exprs: Seq<Rc<Block>>, count: nat) -> Seq<ValueView> {
    Seq::new(count, |i: int| text_value(chosen(draws, exprs, i)))
}

/// With a setter as the next intent of the top frame, whose key expressions from `count` on are
/// still to be evaluated.
pub open spec fn setting(
    m: Machine,
    path: Rc<VarAccessPath>,
    auto_def: bool,
    exprs: Seq<Rc<Block>>,
    count: nat,
    val_source: SourceView,
) -> Machine {
    m.with_intent(
        IntentView::BuildDynamicSetter {
            path,
            auto_def,
            expr_count: exprs.len(),
            pending_exprs: exprs.skip(count as int).reverse(),
            val_source,
        },
    )
}

/// A setter evaluates the expressions in its path in order, and leaves their values on the value
/// stack in that order. Nothing else changes but that a random number is used for each.
///
/// The keys are texts here.
pub proof fn setter_keys_are_evaluated_in_order(
    m: Machine,
    path: Rc<VarAccessPath>,
    auto_def: bool,
    exprs: Seq<Rc<Block>>,
    count: nat,
    val_source: SourceView,
)
    requires
        m.stack.frames.len() > 0,
        m.stack.frames.len() < MAX_STACK_SIZE,
        m.vals.len() + exprs.len() <= MAX_STACK_SIZE,
        m.draws.len() >= exprs.len(),
        forall|i: int|
            0 <= i < exprs.len() ==> {
                &&& (#[trigger] exprs[i]).flag != PrintFlag::Sink
                &&& exprs[i].elements@.len() > 0
                &&& is_text(chosen(m.draws, exprs, i))
            },
        count <= exprs.len(),
    ensures
        steps(setting(m, path, auto_def, exprs, 0, val_source), key_steps(m.draws, exprs, count))
            == (
            ProgressView::Running,
            setting(
                Machine {
                    vals: m.vals + key_values(m.draws, exprs, count),
                    draws: m.draws.skip(count as int),
                    ..m
                },
                path,
                auto_def,
                exprs,
                count,
                val_source,
            ),
        ),
    decreases count,
{
    let start = setting(m, path, auto_def, exprs, 0, val_source);
    if count == 0 {
        assert(m.vals + key_values(m.draws, exprs, 0) =~= m.vals);
        assert(m.draws.skip(0) =~= m.draws);
    } else {
        let before = (count - 1) as nat;
        setter_keys_are_evaluated_in_order(m, path, auto_def, exprs, before, val_source);
        reveal(step_intent);
        reveal_with_fuel(steps, 2);
        let elem = chosen(m.draws, exprs, before as int);
        let block = exprs[before as int];
        let m0 = Machine {
            vals: m.vals + key_values(m.draws, exprs, before),
            draws: m.draws.skip(before as int),
            ..m
        };
        let m1 = setting(m0, path, auto_def, exprs, before, val_source);
        let pending = exprs.skip(before as int).reverse();
        assert(pending.last() == block);
        assert(pending.drop_last() =~= exprs.skip(count as int).reverse());
        assert(m1.top().intents.drop_first() =~= m.top().intents);
        // The key's frame is pushed
        let m2 = step(m1).1;
        let base = Machine {
            draws: m.draws.skip(count as int),
            ..setting(m0, path, auto_def, exprs, count, val_source)
        };
        assert(m1.draws.drop_first() =~= m.draws.skip(count as int));
        assert(pick(m1, block) == m.draws[before as int] as int % block.elements@.len() as int);
        assert(m2 =~= Machine { stack: base.stack.pushed(fresh_frame(elem, true)), ..base });
        assert(m2.top() == fresh_frame(elem, true));
        assert(steps(m1, 1) == (ProgressView::Running, m2));
        // The key is evaluated
        text_evaluates(m2, elem);
        lemma_steps_compose(m1, 1, elem.elements@.len() + 1);
        lemma_steps_compose(
            start,
            key_steps(m.draws, exprs, before),
            elem.elements@.len() + 2,
        );
        assert(m2.stack.popped() =~= base.stack);
        assert(m0.vals.push(text_value(elem)) =~= m.vals + key_values(m.draws, exprs, count));
    }
}

/// An assignment under a dynamic key writes the value under the key. It does so after the steps
/// that evaluate the key and then the value, and changes nothing else but that the random number
/// for the key is used.
///
/// The key and the value are texts here, and the path is a variable that holds a map, then the key.
pub proof fn dynamic_assignment_writes_under_the_key(
    m: Machine,
    path: Rc<VarAccessPath>,
    block: Rc<Block>,
    expr: Rc<Sequence>,
    rest: Seq<IntentView>,
    map: RantMapRef,
)
    requires
        m.stack.frames.len() > 0,
        m.stack.frames.len() < MAX_STACK_SIZE,
        m.vals.len() + 2 <= MAX_STACK_SIZE,
        m.draws.len() > 0,
        path.parts@.len() == 2,
        path.parts@[0] is Name,
        path.parts@[1] is Expression,
        get_local(m, path.parts@[0]->Name_0@) == Ok::<ValueView, HaltView>(ValueView::MapRef(map)),
        map.id < m.engine.maps.len(),
        m.top().intents == seq![
            IntentView::BuildDynamicSetter {
                path,
                auto_def: false,
                expr_count: 1,
                pending_exprs: seq![block],
                val_source: SourceView::FromExpression(expr),
            },
        ] + rest,
        block.flag != PrintFlag::Sink,
        block.elements@.len() > 0,
        is_text(block.elements@[pick(m, block)]),
        block.elements@[pick(m, block)].elements@.len() > 0,
        is_text(expr),
    ensures
        ({
            let elem = block.elements@[pick(m, block)];
            let key = joined(printed(elem, elem.elements@.len()));
            let count = elem.elements@.len() + expr.elements@.len() + 5;
            let (progress, m1) = steps(m, count);
            &&& progress is Running
            &&& m1 == (Machine {
                stack: m.stack.with_top(FrameView { intents: rest, ..m.top() }),
                engine: m.engine.with_key(ValueView::MapRef(map), key, text_value(expr)).1,
                draws: m.draws.drop_first(),
                ..m
            })
            &&& m1.engine.entries(map) == m.engine.entries(map).insert(key, text_value(expr))
        }),
{
    reveal(step_intent);
    reveal_with_fuel(steps, 2);
    let elem = block.elements@[pick(m, block)];
    let key = joined(printed(elem, elem.elements@.len()));
    let idle = m.with_top(FrameView { intents: rest, ..m.top() });
    let pending = IntentView::BuildDynamicSetter {
        path,
        auto_def: false,
        expr_count: 1,
        pending_exprs: Seq::empty(),
        val_source: SourceView::FromExpression(expr),
    };
    assert(m.top().intents.drop_first() =~= rest);
    assert(seq![block].drop_last() =~= Seq::empty());
    // The key's frame is pushed
    let m1 = step(m).1;
    let base1 = Machine { draws: m.draws.drop_first(), ..idle.with_intent(pending) };
    assert(m1 =~= Machine { stack: base1.stack.pushed(fresh_frame(elem, true)), ..base1 });
    assert(m1.top() == fresh_frame(elem, true));
    assert(steps(m, 1) == (ProgressView::Running, m1));
    // The key is evaluated
    text_evaluates(m1, elem);
    text_value_is_text(elem);
    let count1 = elem.elements@.len() + 2;
    lemma_steps_compose(m, 1, elem.elements@.len() + 1);
    let m2 = steps(m, count1).1;
    assert(m2.stack =~= base1.stack);
    // The value's frame is pushed
    assert(m2.top() == FrameView { intents: seq![pending] + rest, ..m.top() });
    assert(m2.top().intents.drop_first() =~= rest);
    let m3 = step(m2).1;
    let set = IntentView::SetValue { path, auto_def: false, expr_count: 1 };
    let base3 = Machine { vals: m2.vals, draws: m2.draws, ..idle.with_intent(set) };
    assert(m3 =~= Machine { stack: base3.stack.pushed(fresh_frame(expr, true)), ..base3 });
    assert(m3.top() == fresh_frame(expr, true));
    assert(steps(m2, 1) == (ProgressView::Running, m3));
    lemma_steps_compose(m, count1, 1);
    // The value is evaluated
    text_evaluates(m3, expr);
    lemma_steps_compose(m, count1 + 1, expr.elements@.len() + 1);
    let count2 = count1 + 1 + expr.elements@.len() + 1;
    let m4 = steps(m, count2).1;
    assert(m4.stack =~= base3.stack);
    assert(m4.top() == FrameView { intents: seq![set] + rest, ..m.top() });
    assert(m4.top().intents.drop_first() =~= rest);
    // The value is written
    let bare = Machine { draws: m4.draws, ..idle };
    assert(m4.with_top(FrameView { intents: rest, ..m4.top() }) =~= with_vals(
        bare,
        seq![ValueView::Text(key), text_value(expr)],
    ));
    value_goes_under_its_key(bare, path, map, key, text_value(expr));
    assert(steps(m4, 1) == step(m4));
    lemma_steps_compose(m, count2, 1);
}

} // verus!

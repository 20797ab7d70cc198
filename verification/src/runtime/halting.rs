//! Every run comes to a stop.
//!
//! A frame either handles an intent or goes on to the next element of its sequence. Handling an
//! intent leaves only intents behind that are closer to being done, and may push frames. The call
//! stack is bounded, so there is an end to pushing frames.

use std::rc::Rc;
use vstd::prelude::*;
use crate::collections::{RantListRef, RantMapRef};
use crate::compiler::lang::{Parameter, PrintFlag};
use crate::runtime::frame::{fresh_frame, FrameView};
use crate::runtime::intent::{IntentView, SourceView};
use crate::runtime::machine::{
    fit_args, pick, pop_val, pop_vals, provide, push_block_expr, push_block_frame, push_frame, step,
    step_element, step_intent, steps, with_args, with_last_pair, Machine, MAX_STACK_SIZE,
};
use crate::runtime::program::{expressions, prevailing, Block, MapKeyExpr, Sequence, RST};
use crate::runtime::stack::StackView;
use crate::value::{RantFunctionInterface, ValueView};

verus! {

/// How far an intent is from being done.
pub open spec fn intent_weight(intent: IntentView) -> nat {
    match intent {
        IntentView::BuildDynamicGetter { pending_exprs, .. } => pending_exprs.len() + 2,
        IntentView::BuildDynamicSetter { pending_exprs, .. } => pending_exprs.len() + 2,
        IntentView::Invoke { arg_exprs, eval_count, .. } => 2 + if eval_count < arg_exprs@.len() {
            (arg_exprs@.len() - eval_count) as nat
        } else {
            0
        },
        IntentView::BuildList { init, index, .. } => 1 + if index < init@.len() {
            (init@.len() - index) as nat
        } else {
            0
        },
        IntentView::BuildMap { init, pair_index, .. } => 1 + if pair_index < init@.len() {
            (init@.len() - pair_index) as nat
        } else {
            0
        },
        _ => 1,
    }
}

/// How far intents are from being done.
pub open spec fn weight(intents: Seq<IntentView>) -> nat
    decreases intents.len(),
{
    if intents.len() == 0 {
        0
    } else {
        intent_weight(intents[0]) + weight(intents.drop_first())
    }
}

/// How many elements a frame has still to run.
pub open spec fn elements_left(frame: FrameView) -> nat {
    match frame.sequence {
        Some(sequence) => if frame.pc < sequence.elements@.len() {
            (sequence.elements@.len() - frame.pc - if frame.started {
                1int
            } else {
                0
            }) as nat
        } else {
            0
        },
        None => 0,
    }
}

/// Whether a frame has less to do than another.
pub open spec fn closer(a: FrameView, b: FrameView) -> bool {
    ||| elements_left(a) < elements_left(b)
    ||| elements_left(a) == elements_left(b) && weight(a.intents) < weight(b.intents)
}

/// How many frames can be pushed.
pub open spec fn room(m: Machine) -> nat {
    if m.stack.frames.len() < MAX_STACK_SIZE {
        (MAX_STACK_SIZE - m.stack.frames.len()) as nat
    } else {
        0
    }
}

/// `after` is the frames of `m`, where the top frame has the same elements left and intents of less
/// than the given weight, with up to two frames more on top.
pub open spec fn grown(m: Machine, after: Seq<FrameView>, limit: nat) -> bool {
    let len = m.stack.frames.len();
    &&& len > 0
    &&& len <= after.len() <= len + 2
    &&& after.take(len - 1) == m.stack.frames.drop_last()
    &&& elements_left(after[len - 1]) == elements_left(m.top())
    &&& weight(after[len - 1].intents) < limit
    &&& after.len() > len ==> len < MAX_STACK_SIZE
}

/// A machine stops if it does not go on forever.
pub open spec fn halts(m: Machine) -> bool {
    exists|count: nat| !((#[trigger] steps(m, count)).0 is Running)
}

/// After `count` steps the machine has stopped, or its top frame is gone and nothing else of the
/// call stack has changed.
pub open spec fn finishes_in(m: Machine, count: nat) -> bool {
    let (progress, m1) = steps(m, count);
    !(progress is Running) || m1.stack.frames == m.stack.frames.drop_last()
}

proof fn lemma_weight_front(intent: IntentView, intents: Seq<IntentView>)
    ensures
        weight(seq![intent] + intents) == intent_weight(intent) + weight(intents),
{
    assert((seq![intent] + intents).drop_first() =~= intents);
}

pub proof fn lemma_with_args_frames(stack: StackView, params: Seq<Parameter>, args: Seq<ValueView>)
    ensures
        with_args(stack, params, args).frames == stack.frames,
    decreases params.len(),
{
    if params.len() > 0 {
        lemma_with_args_frames(stack, params.drop_last(), args);
    }
}

/// Changing the output of the top frame leaves its elements and intents alone.
proof fn lemma_value(m: Machine, value: ValueView, limit: nat)
    requires
        m.stack.frames.len() > 0,
        weight(m.top().intents) < limit,
    ensures
        grown(m, m.with_value(value).stack.frames, limit),
{
    let after = m.with_value(value).stack.frames;
    assert(after.take(m.stack.frames.len() - 1) =~= m.stack.frames.drop_last());
}

/// An intent adds its weight.
proof fn lemma_intent(m: Machine, intent: IntentView, limit: nat)
    requires
        m.stack.frames.len() > 0,
        intent_weight(intent) + weight(m.top().intents) < limit,
    ensures
        grown(m, m.with_intent(intent).stack.frames, limit),
        m.with_intent(intent).stack.frames.len() == m.stack.frames.len(),
{
    let after = m.with_intent(intent).stack.frames;
    lemma_weight_front(intent, m.top().intents);
    assert(after.take(m.stack.frames.len() - 1) =~= m.stack.frames.drop_last());
}

/// A frame on top changes nothing below.
proof fn lemma_push(
    m: Machine,
    m1: Machine,
    callee: Rc<Sequence>,
    use_output: bool,
    params: Seq<Parameter>,
    args: Seq<ValueView>,
    limit: nat,
)
    requires
        grown(m, m1.stack.frames, limit),
        m1.stack.frames.len() <= m.stack.frames.len() + 1,
        push_frame(m1, callee, use_output, params, args).0 is Ok,
    ensures
        grown(m, push_frame(m1, callee, use_output, params, args).1.stack.frames, limit),
        push_frame(m1, callee, use_output, params, args).1.stack.frames.len()
            == m1.stack.frames.len() + 1,
{
    let pushed = m1.stack.pushed(fresh_frame(callee, use_output));
    lemma_with_args_frames(pushed, params, args);
    let after = push_frame(m1, callee, use_output, params, args).1.stack.frames;
    let len = m.stack.frames.len();
    assert(after == m1.stack.frames.push(fresh_frame(callee, use_output)));
    assert(after.take(len - 1) =~= m1.stack.frames.take(len - 1));
    assert(after[len - 1] == m1.stack.frames[len - 1]);
}

/// A frame for an element of a block changes nothing below, but for the intent to print.
proof fn lemma_push_block(
    m: Machine,
    m1: Machine,
    block: Rc<Block>,
    override_print: bool,
    params: Seq<Parameter>,
    args: Seq<ValueView>,
    flag: PrintFlag,
    limit: nat,
)
    requires
        grown(m, m1.stack.frames, limit),
        m1.stack.frames.len() <= m.stack.frames.len() + 1,
        !override_print ==> m1.stack.frames.len() == m.stack.frames.len() && weight(
            m1.top().intents,
        ) + 1 < limit,
        push_block_frame(m1, block, override_print, params, args, flag).0 is Ok,
    ensures
        grown(
            m,
            push_block_frame(m1, block, override_print, params, args, flag).1.stack.frames,
            limit,
        ),
        push_block_frame(m1, block, override_print, params, args, flag).1.stack.frames.len()
            == m1.stack.frames.len() + 1,
{
    let elem = block.elements@[pick(m1, block)];
    let is_printing = prevailing(block.flag, flag) != PrintFlag::Sink;
    let m2 = Machine { draws: m1.draws.drop_first(), ..m1 };
    if is_printing && !override_print {
        let m3 = m2.with_intent(IntentView::PrintLastOutput);
        lemma_weight_front(IntentView::PrintLastOutput, m2.top().intents);
        let len = m.stack.frames.len();
        assert(m3.stack.frames.take(len - 1) =~= m1.stack.frames.take(len - 1));
        lemma_push(m, m3, elem, is_printing, params, args, limit);
    } else {
        lemma_push(m, m2, elem, is_printing, params, args, limit);
    }
}

proof fn lemma_getter(m: Machine, intent: IntentView)
    requires
        m.stack.frames.len() > 0,
        intent is BuildDynamicGetter,
        step_intent(m, intent).0 is Running,
    ensures
        grown(
            m,
            step_intent(m, intent).1.stack.frames,
            intent_weight(intent) + weight(m.top().intents),
        ),
{
    reveal(step_intent);
    let limit = intent_weight(intent) + weight(m.top().intents);
    if let IntentView::BuildDynamicGetter {
        path,
        dynamic_key_count,
        pending_exprs,
        override_print,
    } = intent {
        let get = IntentView::GetValue { path, dynamic_key_count, override_print };
        if pending_exprs.len() == 0 {
            lemma_intent(m, get, limit);
        } else {
            let rest = pending_exprs.drop_last();
            let next = if rest.len() == 0 {
                get
            } else {
                IntentView::BuildDynamicGetter {
                    path,
                    dynamic_key_count,
                    pending_exprs: rest,
                    override_print,
                }
            };
            lemma_intent(m, next, limit);
            lemma_push_block(
                m,
                m.with_intent(next),
                pending_exprs.last(),
                true,
                Seq::empty(),
                Seq::empty(),
                PrintFlag::Plain,
                limit,
            );
        }
    }
}

proof fn lemma_setter(m: Machine, intent: IntentView)
    requires
        m.stack.frames.len() > 0,
        intent is BuildDynamicSetter,
        step_intent(m, intent).0 is Running,
    ensures
        grown(
            m,
            step_intent(m, intent).1.stack.frames,
            intent_weight(intent) + weight(m.top().intents),
        ),
{
    reveal(step_intent);
    let limit = intent_weight(intent) + weight(m.top().intents);
    if let IntentView::BuildDynamicSetter {
        path,
        auto_def,
        expr_count,
        pending_exprs,
        val_source,
    } = intent {
        if pending_exprs.len() == 0 {
            let set = IntentView::SetValue { path, auto_def, expr_count };
            lemma_intent(m, set, limit);
            lemma_provide(m, m.with_intent(set), val_source, limit);
        } else {
            let next = IntentView::BuildDynamicSetter {
                path,
                auto_def,
                expr_count,
                pending_exprs: pending_exprs.drop_last(),
                val_source,
            };
            lemma_intent(m, next, limit);
            lemma_push_block(
                m,
                m.with_intent(next),
                pending_exprs.last(),
                true,
                Seq::empty(),
                Seq::empty(),
                PrintFlag::Plain,
                limit,
            );
        }
    }
}

proof fn lemma_provide(m: Machine, m1: Machine, source: SourceView, limit: nat)
    requires
        grown(m, m1.stack.frames, limit),
        m1.stack.frames.len() <= m.stack.frames.len() + 1,
        provide(m1, source).0 is Ok,
    ensures
        grown(m, provide(m1, source).1.stack.frames, limit),
{
    if let SourceView::FromExpression(expr) = source {
        lemma_push(m, m1, expr, true, Seq::empty(), Seq::empty(), limit);
    }
}

proof fn lemma_invoke(m: Machine, intent: IntentView)
    requires
        m.stack.frames.len() > 0,
        intent is Invoke,
        step_intent(m, intent).0 is Running,
    ensures
        grown(
            m,
            step_intent(m, intent).1.stack.frames,
            intent_weight(intent) + weight(m.top().intents),
        ),
{
    reveal(step_intent);
    let limit = intent_weight(intent) + weight(m.top().intents);
    if let IntentView::Invoke { arg_exprs, eval_count, flag } = intent {
        let argc = arg_exprs@.len();
        if eval_count < argc {
            let next = IntentView::Invoke {
                arg_exprs,
                eval_count: eval_count + 1,
                flag,
            };
            lemma_intent(m, next, limit);
            lemma_push(
                m,
                m.with_intent(next),
                arg_exprs@[eval_count as int],
                true,
                Seq::empty(),
                Seq::empty(),
                limit,
            );
        } else {
            let (args, m1) = pop_vals(m, argc);
            let (callee, m2) = pop_val(m1);
            if let Ok(ValueView::Function(func)) = callee {
                let (fitted, m3) = fit_args(m2, func, args->Ok_0.reverse());
                if let RantFunctionInterface::User(block) = func.body {
                    assert(m3.stack.frames.take(m.stack.frames.len() - 1)
                        =~= m.stack.frames.drop_last());
                    lemma_push_block(
                        m,
                        m3,
                        block,
                        false,
                        func.params@,
                        fitted->Ok_0,
                        flag,
                        limit,
                    );
                }
            }
        }
    }
}

proof fn lemma_list(m: Machine, intent: IntentView)
    requires
        m.stack.frames.len() > 0,
        intent is BuildList,
        step_intent(m, intent).0 is Running,
    ensures
        grown(
            m,
            step_intent(m, intent).1.stack.frames,
            intent_weight(intent) + weight(m.top().intents),
        ),
{
    reveal(step_intent);
    let limit = intent_weight(intent) + weight(m.top().intents);
    if let IntentView::BuildList { init, index, list } = intent {
        let m1 = if index > 0 {
            pop_val(m).1
        } else {
            m
        };
        let list1 = if index > 0 {
            list.push(m.vals.last())
        } else {
            list
        };
        if index < init@.len() {
            let next = IntentView::BuildList { init, index: index + 1, list: list1 };
            lemma_intent(m1, next, limit);
            lemma_push(
                m,
                m1.with_intent(next),
                init@[index as int],
                true,
                Seq::empty(),
                Seq::empty(),
                limit,
            );
        } else {
            let made = RantListRef { id: m1.engine.lists.len() as usize };
            lemma_value(m, ValueView::List(made), limit);
        }
    }
}

proof fn lemma_map(m: Machine, intent: IntentView)
    requires
        m.stack.frames.len() > 0,
        intent is BuildMap,
        step_intent(m, intent).0 is Running,
    ensures
        grown(
            m,
            step_intent(m, intent).1.stack.frames,
            intent_weight(intent) + weight(m.top().intents),
        ),
{
    reveal(step_intent);
    let limit = intent_weight(intent) + weight(m.top().intents);
    if let IntentView::BuildMap { init, pair_index, map } = intent {
        let (result, m1) = with_last_pair(m, init, pair_index, map);
        assert(m1.stack == m.stack);
        let map1 = result->Ok_0;
        if pair_index < init@.len() {
            let next = IntentView::BuildMap {
                init,
                pair_index: pair_index + 1,
                map: map1,
            };
            let (key, expr) = init@[pair_index as int];
            let m2 = m1.with_intent(next);
            lemma_intent(m1, next, limit);
            match key {
                MapKeyExpr::Dynamic(block) => {
                    lemma_push_block(
                        m,
                        m2,
                        block,
                        true,
                        Seq::empty(),
                        Seq::empty(),
                        PrintFlag::Plain,
                        limit,
                    );
                    lemma_push(
                        m,
                        push_block_expr(m2, block).1,
                        expr,
                        true,
                        Seq::empty(),
                        Seq::empty(),
                        limit,
                    );
                },
                MapKeyExpr::Static(_) => {
                    lemma_push(m, m2, expr, true, Seq::empty(), Seq::empty(), limit);
                },
            }
        } else {
            let made = RantMapRef { id: m1.engine.maps.len() as usize };
            lemma_value(m, ValueView::MapRef(made), limit);
        }
    }
}

/// Handling an intent leaves less to do, but for frames on top.
proof fn lemma_step_intent(m: Machine, intent: IntentView)
    requires
        m.stack.frames.len() > 0,
        step_intent(m, intent).0 is Running,
    ensures
        grown(
            m,
            step_intent(m, intent).1.stack.frames,
            intent_weight(intent) + weight(m.top().intents),
        ),
{
    reveal(step_intent);
    let limit = intent_weight(intent) + weight(m.top().intents);
    let after = step_intent(m, intent).1.stack.frames;
    let below = m.stack.frames.len() - 1;
    match intent {
        IntentView::BuildDynamicGetter { .. } => lemma_getter(m, intent),
        IntentView::BuildDynamicSetter { .. } => lemma_setter(m, intent),
        IntentView::Invoke { .. } => lemma_invoke(m, intent),
        IntentView::BuildList { .. } => lemma_list(m, intent),
        IntentView::BuildMap { .. } => lemma_map(m, intent),
        _ => {
            assert(after.take(below) =~= m.stack.frames.drop_last());
        },
    }
}

/// Running an element leaves the elements after it, and may add intents and a frame on top.
proof fn lemma_step_element(m: Machine, element: Rc<RST>) -> (limit: nat)
    requires
        m.stack.frames.len() > 0,
        step_element(m, element).0 is Ok,
    ensures
        grown(m, step_element(m, element).1.stack.frames, limit),
{
    reveal(step_element);
    let after = step_element(m, element).1.stack.frames;
    let below = m.stack.frames.len() - 1;
    let base = weight(m.top().intents);
    match *element {
        RST::Block(block) => {
            let limit = base + 2;
            assert(m.stack.frames.take(below) =~= m.stack.frames.drop_last());
            lemma_push_block(
                m,
                m,
                block,
                false,
                Seq::empty(),
                Seq::empty(),
                PrintFlag::Plain,
                limit,
            );
            limit
        },
        RST::VarDef(vname, Some(expr)) => {
            let limit = base + 2;
            let intent = IntentView::DefVar { vname: vname@ };
            lemma_intent(m, intent, limit);
            lemma_push(m, m.with_intent(intent), expr, true, Seq::empty(), Seq::empty(), limit);
            limit
        },
        RST::VarSet(path, expr) => {
            let keys = expressions(path.parts@);
            if keys.len() == 0 {
                let limit = base + 2;
                let intent = IntentView::SetValue { path, auto_def: false, expr_count: 0 };
                lemma_intent(m, intent, limit);
                lemma_push(m, m.with_intent(intent), expr, true, Seq::empty(), Seq::empty(), limit);
                limit
            } else {
                assert(after.take(below) =~= m.stack.frames.drop_last());
                weight(after[below].intents) + 1
            }
        },
        RST::AnonFuncCall(call) => {
            let intent = IntentView::Invoke {
                arg_exprs: call.args,
                eval_count: 0,
                flag: call.flag,
            };
            let limit = base + intent_weight(intent) + 1;
            lemma_intent(m, intent, limit);
            lemma_push(
                m,
                m.with_intent(intent),
                call.expr,
                true,
                Seq::empty(),
                Seq::empty(),
                limit,
            );
            limit
        },
        _ => {
            assert(after.take(below) =~= m.stack.frames.drop_last());
            weight(after[below].intents) + 1
        },
    }
}

/// A step that goes on either pops the top frame, or leaves it with less to do and pushes at most
/// two frames on top.
pub proof fn lemma_step(m: Machine)
    requires
        m.stack.frames.len() > 0,
        step(m).0 is Running,
    ensures
        ({
            let before = m.stack.frames;
            let after = step(m).1.stack.frames;
            ||| after == before.drop_last()
            ||| {
                &&& before.len() <= after.len() <= before.len() + 2
                &&& after.take(before.len() - 1) == before.drop_last()
                &&& closer(after[before.len() - 1], m.top())
                &&& after.len() > before.len() ==> before.len() < MAX_STACK_SIZE
            }
        }),
{
    let before = m.stack.frames;
    let top = m.top();
    if top.intents.len() > 0 {
        let m1 = m.with_top(FrameView { intents: top.intents.drop_first(), ..top });
        lemma_step_intent(m1, top.intents[0]);
        assert(m1.stack.frames.drop_last() =~= before.drop_last());
    } else {
        let (element, frame) = top.advanced();
        if let Some(element) = element {
            let m1 = m.with_top(frame);
            let _limit = lemma_step_element(m1, element);
            assert(m1.stack.frames.drop_last() =~= before.drop_last());
        }
    }
}

/// Steps can be counted in two parts.
pub proof fn lemma_steps_compose(m: Machine, first: nat, second: nat)
    requires
        steps(m, first).0 is Running,
    ensures
        steps(m, first + second) == steps(steps(m, first).1, second),
    decreases first,
{
    if first > 0 {
        lemma_steps_compose(step(m).1, (first - 1) as nat, second);
    }
}

/// The top frame comes to its end, or the machine stops.
proof fn lemma_frame_finishes(m: Machine) -> (count: nat)
    requires
        m.stack.frames.len() > 0,
    ensures
        finishes_in(m, count),
    decreases room(m), elements_left(m.top()), weight(m.top().intents),
{
    let m1 = step(m).1;
    reveal_with_fuel(steps, 2);
    assert(steps(m, 1) == step(m));
    if !(step(m).0 is Running) {
        1
    } else {
        lemma_step(m);
        let len = m.stack.frames.len();
        let frames1 = m1.stack.frames;
        if frames1 == m.stack.frames.drop_last() {
            1
        } else if frames1.len() == len {
            assert(frames1.drop_last() =~= m.stack.frames.drop_last());
            let rest = lemma_frame_finishes(m1);
            lemma_steps_compose(m, 1, rest);
            1 + rest
        } else {
            // Frames were pushed: each of them comes to its end first
            let count1 = lemma_frame_finishes(m1);
            lemma_steps_compose(m, 1, count1);
            let total1 = 1 + count1;
            if !(steps(m1, count1).0 is Running) {
                total1
            } else {
                let m2 = steps(m1, count1).1;
                assert(m2.stack.frames.take(len - 1) =~= frames1.take(len - 1));
                assert(m2.stack.frames[len - 1] == frames1[len - 1]);
                if m2.stack.frames.len() == len {
                    assert(m2.stack.frames.drop_last() =~= m.stack.frames.drop_last());
                    let rest = lemma_frame_finishes(m2);
                    lemma_steps_compose(m, total1, rest);
                    total1 + rest
                } else {
                    let count2 = lemma_frame_finishes(m2);
                    lemma_steps_compose(m, total1, count2);
                    let total2 = total1 + count2;
                    if !(steps(m2, count2).0 is Running) {
                        total2
                    } else {
                        let m3 = steps(m2, count2).1;
                        assert(m3.stack.frames.take(len - 1) =~= frames1.take(len - 1));
                        assert(m3.stack.frames[len - 1] == frames1[len - 1]);
                        assert(m3.stack.frames.drop_last() =~= m.stack.frames.drop_last());
                        let rest = lemma_frame_finishes(m3);
                        lemma_steps_compose(m, total2, rest);
                        total2 + rest
                    }
                }
            }
        }
    }
}

/// Every machine stops: no program runs forever.
pub proof fn lemma_halts(m: Machine)
    ensures
        halts(m),
    decreases m.stack.frames.len(),
{
    if m.stack.frames.len() == 0 {
        reveal_with_fuel(steps, 2);
        assert(!(steps(m, 1).0 is Running));
    } else {
        let count = lemma_frame_finishes(m);
        if steps(m, count).0 is Running {
            let m1 = steps(m, count).1;
            lemma_halts(m1);
            let rest = choose|rest: nat| !((#[trigger] steps(m1, rest)).0 is Running);
            lemma_steps_compose(m, count, rest);
            assert(!(steps(m, count + rest).0 is Running));
        }
    }
}

} // verus!

//! What programs come to.

use std::rc::Rc;
use vstd::prelude::*;
use crate::collections::{empty_map, MapView, RantListRef, RantMapRef};
use crate::compiler::lang::{AccessPathKind, Parameter, PrintFlag};
use crate::engine::EngineView;
use crate::laws::{assignable_iff_readable, assignment_reads_back, local_definition_reads_back};
use crate::runtime::assignment::with_vals;
use crate::runtime::error::{ErrorTypeView, ErrorView};
use crate::runtime::frame::{fresh_frame, FrameView};
use crate::runtime::halting::{lemma_steps_compose, lemma_with_args_frames};
use crate::runtime::intent::{IntentView, SourceView};
use crate::runtime::laws::{
    arguments_arrive_in_order, chosen, is_text, key_steps, key_values,
    setter_keys_are_evaluated_in_order, setting, text_evaluates, text_value,
};
use crate::runtime::machine::{
    act, call, fit_args, follow, get_local, pop_val, pop_vals, push_frame, push_val, set_value,
    step, step_element, step_intent, steps, with_args, with_last_pair, write_to, HaltView, Machine,
    ProgressView, MAX_STACK_SIZE,
};
use crate::runtime::output::{joined, rendered, PieceView};
use crate::runtime::program::{
    expressions, required_count, required_varity, variadic_start, Block, MapKeyExpr, Sequence,
    VarAccessComponent, VarAccessPath, RST,
};
use crate::runtime::stack::{lemma_pile_holder, StackView};
use crate::text::decimal;
use crate::value::{RantFunction, RantFunctionInterface, ValueView};

verus! {

// Parameters and arguments.

/// The variadic parameter is the first that is variadic.
pub proof fn variadic_parameter_is_the_first(params: Seq<Parameter>)
    ensures
        variadic_start(params) <= params.len(),
        forall|i: int|
            0 <= i < variadic_start(params) ==> !(#[trigger] params[i]).varity.spec_is_variadic(),
        variadic_start(params) < params.len()
            ==> params[variadic_start(params) as int].varity.spec_is_variadic(),
    decreases params.len(),
{
    if params.len() > 0 && !params[0].varity.spec_is_variadic() {
        let rest = params.drop_first();
        variadic_parameter_is_the_first(rest);
        assert forall|i: int| 0 <= i < variadic_start(params) implies !(
        #[trigger] params[i]).varity.spec_is_variadic() by {
            if i > 0 {
                assert(rest[i - 1] == params[i]);
            }
        }
    }
}

/// A function demands an argument for each parameter before the first that can do without one.
pub proof fn demanded_parameters_come_first(params: Seq<Parameter>)
    ensures
        required_count(params) <= params.len(),
        forall|i: int|
            0 <= i < required_count(params) ==> required_varity((#[trigger] params[i]).varity),
        required_count(params) < params.len() ==> !required_varity(
            params[required_count(params) as int].varity,
        ),
    decreases params.len(),
{
    if params.len() > 0 && required_varity(params[0].varity) {
        let rest = params.drop_first();
        demanded_parameters_come_first(rest);
        assert forall|i: int| 0 <= i < required_count(params) implies required_varity(
            (#[trigger] params[i]).varity,
        ) by {
            if i > 0 {
                assert(rest[i - 1] == params[i]);
            }
        }
    }
}

/// A function takes at least as many arguments as it demands and, unless it is variadic, no more
/// than it has parameters. Nothing else is refused where every argument before the variadic
/// parameter is there.
pub proof fn arguments_fit_by_their_number(
    m: Machine,
    func: Rc<RantFunction>,
    args: Seq<ValueView>,
)
    ensures
        fit_args(m, func, args).0 is Ok ==> args.len() >= func.min_arg_count,
        fit_args(m, func, args).0 is Ok && func.vararg_start_index >= func.params@.len()
            ==> args.len() <= func.params@.len(),
        args.len() >= func.min_arg_count && args.len() <= func.params@.len()
            && func.vararg_start_index >= func.params@.len() ==> fit_args(m, func, args).0 is Ok,
        args.len() >= func.min_arg_count && args.len() >= func.vararg_start_index
            && func.vararg_start_index < func.params@.len() ==> fit_args(m, func, args).0 is Ok,
        func.body is Foreign && fit_args(m, func, args).0 is Ok ==> fit_args(m, func, args) == (
            Ok::<Seq<ValueView>, HaltView>(args),
            m,
        ),
        func.vararg_start_index >= func.params@.len() && fit_args(m, func, args).0 is Ok
            ==> fit_args(m, func, args) == (Ok::<Seq<ValueView>, HaltView>(args), m),
{
}

/// A call with too few or too many arguments fails, says how many the function takes and how many
/// there are, and changes nothing.
pub proof fn calls_that_do_not_fit_fail(
    m: Machine,
    func: Rc<RantFunction>,
    args: Seq<ValueView>,
    flag: PrintFlag,
)
    requires
        args.len() < func.min_arg_count || func.vararg_start_index >= func.params@.len()
            && args.len() > func.params@.len(),
    ensures
        ({
            let variadic = func.vararg_start_index < func.params@.len();
            let expected = if variadic {
                "at least "@
            } else {
                Seq::empty()
            };
            call(m, func, args, flag) == (
                ProgressView::Failed(
                    ErrorView {
                        error_type: ErrorTypeView::ArgumentMismatch,
                        description: Some(
                            "arguments don't match; expected "@ + expected + decimal(
                                func.min_arg_count as nat,
                            ) + ", found "@ + decimal(args.len()),
                        ),
                    },
                ),
                m,
            )
        }),
{
}

/// A native function that is called is handed to the host, with its arguments as they are. Nothing
/// changes.
pub proof fn native_functions_go_to_the_host(
    m: Machine,
    func: Rc<RantFunction>,
    args: Seq<ValueView>,
    flag: PrintFlag,
)
    requires
        func.body is Foreign,
        func.min_arg_count <= args.len(),
        func.vararg_start_index < func.params@.len() || args.len() <= func.params@.len(),
    ensures
        call(m, func, args, flag) == (ProgressView::NativeCall { func, args }, m),
{
}

/// A full call stack takes no frame and a full value stack no value, and an empty value stack gives
/// none. Nothing changes.
pub proof fn stacks_have_their_limits(
    m: Machine,
    callee: Rc<Sequence>,
    use_output: bool,
    params: Seq<Parameter>,
    args: Seq<ValueView>,
    value: ValueView,
)
    ensures
        m.stack.frames.len() >= 20000 <==> push_frame(m, callee, use_output, params, args).0 is Err,
        m.stack.frames.len() >= 20000 ==> push_frame(m, callee, use_output, params, args) == (
            Err::<(), HaltView>(
                HaltView::Error(
                    ErrorView {
                        error_type: ErrorTypeView::StackOverflow,
                        description: Some("call stack has overflowed"@),
                    },
                ),
            ),
            m,
        ),
        m.vals.len() >= 20000 ==> push_val(m, value) == (
            Err::<nat, HaltView>(
                HaltView::Error(
                    ErrorView {
                        error_type: ErrorTypeView::StackOverflow,
                        description: Some("value stack has overflowed"@),
                    },
                ),
            ),
            m,
        ),
        m.vals.len() < 20000 ==> push_val(m, value).0 is Ok,
        m.vals.len() == 0 ==> pop_val(m) == (
            Err::<ValueView, HaltView>(
                HaltView::Error(
                    ErrorView {
                        error_type: ErrorTypeView::StackUnderflow,
                        description: Some("value stack has underflowed"@),
                    },
                ),
            ),
            m,
        ),
{
}

/// The arguments from the variadic parameter of a function of the program on become one list, in
/// order. The arguments before it stay as they are, and no other list changes: no argument is lost.
pub proof fn variadic_arguments_become_a_list(
    m: Machine,
    func: Rc<RantFunction>,
    args: Seq<ValueView>,
)
    requires
        func.body is User,
        func.vararg_start_index < func.params@.len(),
        func.vararg_start_index <= args.len(),
        func.min_arg_count <= args.len(),
        m.engine.lists.len() < usize::MAX,
    ensures
        ({
            let (fitted, m1) = fit_args(m, func, args);
            let start = func.vararg_start_index as int;
            &&& fitted is Ok
            &&& fitted->Ok_0.len() == start + 1
            &&& fitted->Ok_0[start] is List
            &&& m1.engine.list(fitted->Ok_0[start]->List_0).len() == args.len() - start
            &&& forall|i: int|
                0 <= i < args.len() - start
                    ==> #[trigger] m1.engine.list(fitted->Ok_0[start]->List_0)[i]
                    == args[start + i]
            &&& forall|i: int| 0 <= i < start ==> #[trigger] fitted->Ok_0[i] == args[i]
            &&& fitted->Ok_0.drop_last() + m1.engine.list(fitted->Ok_0[start]->List_0) == args
            &&& m1.stack == m.stack && m1.vals == m.vals && m1.draws == m.draws
            &&& m1.engine.globals == m.engine.globals && m1.engine.maps == m.engine.maps
            &&& m1.engine.options == m.engine.options
            &&& forall|list: RantListRef|
                list.id < m.engine.lists.len() ==> #[trigger] m1.engine.list(list)
                    == m.engine.list(list)
        }),
{
    let start = func.vararg_start_index as int;
    let (fitted, m1) = fit_args(m, func, args);
    let list = RantListRef { id: m.engine.lists.len() as usize };
    assert(m1.engine.list(list) == args.skip(start));
    assert(fitted->Ok_0.drop_last() + args.skip(start) =~= args);
}

/// Whether no two of the parameters have the same name.
pub open spec fn distinct(params: Seq<Parameter>) -> bool {
    forall|i: int, j: int|
        0 <= i < j < params.len() ==> (#[trigger] params[i]).name@ != (#[trigger] params[j]).name@
}

/// Each parameter of a function that is called is a local variable that holds the argument in its
/// place, or the empty value if there is none.
pub proof fn parameters_hold_their_arguments(
    m: Machine,
    callee: Rc<Sequence>,
    use_output: bool,
    params: Seq<Parameter>,
    args: Seq<ValueView>,
    i: int,
)
    requires
        m.wf(),
        distinct(params),
        0 <= i < params.len(),
        push_frame(m, callee, use_output, params, args).0 is Ok,
    ensures
        get_local(push_frame(m, callee, use_output, params, args).1, params[i].name@) == Ok::<
            ValueView,
            HaltView,
        >(
            if i < args.len() {
                args[i]
            } else {
                ValueView::Empty
            },
        ),
{
    let stack = m.stack.pushed(fresh_frame(callee, use_output));
    let m1 = push_frame(m, callee, use_output, params, args).1;
    arguments_are_defined(stack, params, args, i);
    let layers = m1.stack.layers;
    let id = params[i].name@;
    lemma_pile_holder(layers, id);
}

proof fn arguments_are_defined(
    stack: StackView,
    params: Seq<Parameter>,
    args: Seq<ValueView>,
    i: int,
)
    requires
        stack.layers.len() > 0,
        distinct(params),
        0 <= i < params.len(),
    ensures
        with_args(stack, params, args).layers.len() == stack.layers.len(),
        with_args(stack, params, args).layers.last().dom().contains(params[i].name@),
        with_args(stack, params, args).layers.last()[params[i].name@] == if i < args.len() {
            args[i]
        } else {
            ValueView::Empty
        },
    decreases params.len(),
{
    let before = params.drop_last();
    arguments_keep_layers(stack, before, args);
    if i < params.len() - 1 {
        assert(before[i] == params[i]);
        arguments_are_defined(stack, before, args, i);
        assert(params[i].name@ != params[params.len() - 1].name@);
    }
}

proof fn arguments_keep_layers(stack: StackView, params: Seq<Parameter>, args: Seq<ValueView>)
    requires
        stack.layers.len() > 0,
    ensures
        with_args(stack, params, args).layers.len() == stack.layers.len(),
    decreases params.len(),
{
    if params.len() > 0 {
        arguments_keep_layers(stack, params.drop_last(), args);
    }
}

// Running elements.

/// An expression that is text is evaluated in as many steps as it has elements and one more, after
/// the step that pushes its frame. It leaves its value.
proof fn text_follows(m: Machine, base: Machine, expr: Rc<Sequence>)
    requires
        step(m) == (
            ProgressView::Running,
            Machine { stack: base.stack.pushed(fresh_frame(expr, true)), ..base },
        ),
        is_text(expr),
        base.vals.len() < MAX_STACK_SIZE,
    ensures
        steps(m, expr.elements@.len() + 2) == (
            ProgressView::Running,
            Machine { vals: base.vals.push(text_value(expr)), ..base },
        ),
{
    let m1 = step(m).1;
    assert(m1.top() == fresh_frame(expr, true));
    text_evaluates(m1, expr);
    assert(m1.stack.popped() =~= base.stack);
    reveal_with_fuel(steps, 2);
    assert(steps(m, 1) == (ProgressView::Running, m1));
    lemma_steps_compose(m, 1, expr.elements@.len() + 1);
}

/// A definition with a value makes a local variable of that value.
///
/// The value is text here.
pub proof fn definitions_define(
    m: Machine,
    element: Rc<RST>,
    name: Seq<char>,
    expr: Rc<Sequence>,
)
    requires
        m.wf(),
        0 < m.stack.frames.len() < MAX_STACK_SIZE,
        m.vals.len() < MAX_STACK_SIZE,
        *element matches RST::VarDef(id, Some(value)) && id@ == name && value == expr,
        is_text(expr),
    ensures
        ({
            let (progress, after) = steps(step_element(m, element).1, expr.elements@.len() + 2);
            &&& progress is Running
            &&& get_local(after, name) == Ok::<ValueView, HaltView>(text_value(expr))
            &&& after.vals == m.vals && after.engine == m.engine && after.draws == m.draws
            &&& after.stack.frames == m.stack.frames
        }),
{
    reveal(step_element);
    reveal(step_intent);
    reveal_with_fuel(steps, 2);
    let m1 = step_element(m, element).1;
    let base = m.with_intent(IntentView::DefVar { vname: name });
    assert(m1 =~= Machine { stack: base.stack.pushed(fresh_frame(expr, true)), ..base });
    assert(m1.top() == fresh_frame(expr, true));
    text_evaluates(m1, expr);
    let m2 = steps(m1, expr.elements@.len() + 1).1;
    assert(m2.stack =~= base.stack);
    assert(m2.top().intents.drop_first() =~= m.top().intents);
    lemma_steps_compose(m1, expr.elements@.len() + 1, 1);
    assert(steps(m2, 1) == step(m2));
    let back = m2.with_top(FrameView { intents: m.top().intents, ..m2.top() });
    assert(back.stack =~= m.stack);
    let m3 = step(m2).1;
    assert(m2.vals.drop_last() =~= m.vals);
    local_definition_reads_back(m.stack, m.engine.globals, name, text_value(expr));
    assert(m3.stack == m.stack.defined(name, AccessPathKind::Local, text_value(expr)));
}

/// A definition without a value makes a local variable that is empty.
pub proof fn bare_definitions_are_empty(m: Machine, element: Rc<RST>, name: Seq<char>)
    requires
        m.wf(),
        *element matches RST::VarDef(id, None) && id@ == name,
    ensures
        ({
            let (result, after) = step_element(m, element);
            &&& result is Ok
            &&& get_local(after, name) == Ok::<ValueView, HaltView>(ValueView::Empty)
            &&& after.vals == m.vals && after.engine == m.engine && after.draws == m.draws
            &&& after.stack.frames == m.stack.frames
        }),
{
    reveal(step_element);
    local_definition_reads_back(m.stack, m.engine.globals, name, ValueView::Empty);
}

/// A block prints the element that the next random number picks.
///
/// The element is text here.
pub proof fn blocks_print_an_element(m: Machine, element: Rc<RST>, block: Rc<Block>)
    requires
        0 < m.stack.frames.len() < MAX_STACK_SIZE,
        m.vals.len() < MAX_STACK_SIZE,
        m.draws.len() > 0,
        *element matches RST::Block(b) && b == block,
        block.flag != PrintFlag::Sink,
        block.elements@.len() > 0,
        is_text(block.elements@[m.draws[0] as int % block.elements@.len() as int]),
    ensures
        ({
            let picked = block.elements@[m.draws[0] as int % block.elements@.len() as int];
            let after = steps(step_element(m, element).1, picked.elements@.len() + 2);
            after == (
                ProgressView::Running,
                Machine { draws: m.draws.drop_first(), ..m }.with_value(text_value(picked)),
            )
        }),
{
    reveal(step_element);
    reveal(step_intent);
    reveal_with_fuel(steps, 2);
    let picked = block.elements@[m.draws[0] as int % block.elements@.len() as int];
    let m0 = Machine { draws: m.draws.drop_first(), ..m };
    let base = m0.with_intent(IntentView::PrintLastOutput);
    let m1 = step_element(m, element).1;
    assert(m1 =~= Machine { stack: base.stack.pushed(fresh_frame(picked, true)), ..base });
    assert(m1.top() == fresh_frame(picked, true));
    text_evaluates(m1, picked);
    let m2 = steps(m1, picked.elements@.len() + 1).1;
    assert(m2.stack =~= base.stack);
    assert(m2.top().intents.drop_first() =~= m.top().intents);
    lemma_steps_compose(m1, picked.elements@.len() + 1, 1);
    assert(steps(m2, 1) == step(m2));
    assert(m2.vals.drop_last() =~= m.vals);
    let back = m2.with_top(FrameView { intents: m.top().intents, ..m2.top() });
    assert(pop_val(back).1 =~= m0);
}

/// How many steps it takes to evaluate the first `count` expressions, each with a step before it.
pub open spec fn text_steps(exprs: Seq<Rc<Sequence>>, count: nat) -> nat
    decreases count,
{
    if count == 0 {
        0
    } else {
        text_steps(exprs, (count - 1) as nat) + exprs[count - 1].elements@.len() + 2
    }
}

/// The values of the first `count` expressions, which are text.
pub open spec fn text_values(exprs: Seq<Rc<Sequence>>, count: nat) -> Seq<ValueView> {
    Seq::new(count, |i: int| text_value(exprs[i]))
}

/// With a list that was built from the first elements but one, and the value of that one.
spec fn listing(m: Machine, init: Rc<Vec<Rc<Sequence>>>, count: nat) -> Machine {
    if count == 0 {
        m.with_intent(IntentView::BuildList { init, index: 0, list: Seq::empty() })
    } else {
        let before = (count - 1) as nat;
        Machine { vals: m.vals.push(text_value(init@[before as int])), ..m }.with_intent(
            IntentView::BuildList { init, index: count, list: text_values(init@, before) },
        )
    }
}

/// Takes the intent that comes next from the top frame.
proof fn intent_comes_off(m: Machine, base: Machine, intent: IntentView)
    requires
        base.stack.frames.len() > 0,
        m == base.with_intent(intent),
    ensures
        m.stack.frames.len() > 0,
        m.top().intents.len() > 0,
        m.top().intents[0] == intent,
        m.with_top(FrameView { intents: m.top().intents.drop_first(), ..m.top() }) == base,
{
    assert(m.top().intents.drop_first() =~= base.top().intents);
    assert(m.with_top(FrameView { intents: m.top().intents.drop_first(), ..m.top() }) =~= base);
}

proof fn listing_goes_on(m: Machine, init: Rc<Vec<Rc<Sequence>>>, count: nat)
    requires
        0 < m.stack.frames.len() < MAX_STACK_SIZE,
        m.vals.len() < MAX_STACK_SIZE,
        forall|i: int| 0 <= i < init@.len() ==> is_text(#[trigger] init@[i]),
        count <= init@.len(),
    ensures
        steps(listing(m, init, 0), text_steps(init@, count)) == (
            ProgressView::Running,
            listing(m, init, count),
        ),
    decreases count,
{
    if count > 0 {
        let before = (count - 1) as nat;
        listing_goes_on(m, init, before);
        reveal(step_intent);
        let m1 = listing(m, init, before);
        let taken = listed(m, init, before);
        listing_takes(m, init, before);
        let base = m.with_intent(
            IntentView::BuildList { init, index: count, list: text_values(init@, before) },
        );
        assert(step(m1).1 =~= Machine {
            stack: base.stack.pushed(fresh_frame(init@[before as int], true)),
            ..base
        });
        text_follows(m1, base, init@[before as int]);
        lemma_steps_compose(
            listing(m, init, 0),
            text_steps(init@, before),
            init@[before as int].elements@.len() + 2,
        );
    }
}

/// The machine as it is when the intent has been taken.
spec fn listed(m: Machine, init: Rc<Vec<Rc<Sequence>>>, count: nat) -> (Machine, IntentView) {
    if count == 0 {
        (m, IntentView::BuildList { init, index: 0, list: Seq::empty() })
    } else {
        let before = (count - 1) as nat;
        (
            Machine { vals: m.vals.push(text_value(init@[before as int])), ..m },
            IntentView::BuildList { init, index: count, list: text_values(init@, before) },
        )
    }
}

/// A step takes the value of the element evaluated last into the list.
proof fn listing_takes(m: Machine, init: Rc<Vec<Rc<Sequence>>>, count: nat)
    requires
        0 < m.stack.frames.len(),
    ensures
        ({
            let (taken, intent) = listed(m, init, count);
            &&& listing(m, init, count) == taken.with_intent(intent)
            &&& step(listing(m, init, count)).0 is NeedsDraw || step(listing(m, init, count))
                == step_intent(taken, intent)
            &&& count > 0 ==> pop_val(taken) == (
                Ok::<ValueView, HaltView>(text_value(init@[count - 1])),
                m,
            )
            &&& count > 0 ==> text_values(init@, (count - 1) as nat).push(
                text_value(init@[count - 1]),
            ) == text_values(init@, count)
            &&& text_values(init@, 0) == Seq::<ValueView>::empty()
        }),
{
    let (taken, intent) = listed(m, init, count);
    intent_comes_off(listing(m, init, count), taken, intent);
    assert(text_values(init@, 0) =~= Seq::<ValueView>::empty());
    if count > 0 {
        assert(taken.vals.drop_last() =~= m.vals);
        assert(text_values(init@, (count - 1) as nat).push(text_value(init@[count - 1]))
            =~= text_values(init@, count));
    }
}

/// A list initializer prints a new list that holds the values of its elements in order. Nothing
/// else changes.
///
/// The elements are texts here.
pub proof fn lists_hold_their_elements_in_order(
    m: Machine,
    element: Rc<RST>,
    init: Rc<Vec<Rc<Sequence>>>,
)
    requires
        0 < m.stack.frames.len() < MAX_STACK_SIZE,
        m.vals.len() < MAX_STACK_SIZE,
        *element matches RST::ListInit(i) && i == init,
        forall|i: int| 0 <= i < init@.len() ==> is_text(#[trigger] init@[i]),
    ensures
        steps(step_element(m, element).1, text_steps(init@, init@.len()) + 1) == (
            ProgressView::Running,
            Machine {
                engine: EngineView {
                    lists: m.engine.lists.push(
                        Seq::new(init@.len(), |i: int| text_value(init@[i])),
                    ),
                    ..m.engine
                },
                ..m
            }.with_value(ValueView::List(RantListRef { id: m.engine.lists.len() as usize })),
        ),
{
    reveal(step_element);
    reveal(step_intent);
    reveal_with_fuel(steps, 2);
    let len = init@.len();
    assert(step_element(m, element).1 == listing(m, init, 0));
    listing_goes_on(m, init, len);
    listing_takes(m, init, len);
    let m1 = listing(m, init, len);
    assert(steps(m1, 1) == step(m1));
    assert(text_values(init@, len) =~= Seq::new(len, |i: int| text_value(init@[i])));
    lemma_steps_compose(listing(m, init, 0), text_steps(init@, len), 1);
}

// Maps.

/// How many of the first `count` keys are dynamic.
pub open spec fn dynamic_keys(pairs: Seq<(MapKeyExpr, Rc<Sequence>)>, count: nat) -> nat
    decreases count,
{
    if count == 0 {
        0
    } else {
        dynamic_keys(pairs, (count - 1) as nat) + if pairs[count - 1].0 is Dynamic {
            1nat
        } else {
            0
        }
    }
}

/// The element of the dynamic key of pair `i` that the random numbers pick.
pub open spec fn picked_key(
    draws: Seq<u64>,
    pairs: Seq<(MapKeyExpr, Rc<Sequence>)>,
    i: nat,
) -> Rc<Sequence> {
    let elements = pairs[i as int].0->Dynamic_0.elements@;
    elements[draws[dynamic_keys(pairs, i) as int] as int % elements.len() as int]
}

/// The key of pair `i`.
pub open spec fn pair_key(
    draws: Seq<u64>,
    pairs: Seq<(MapKeyExpr, Rc<Sequence>)>,
    i: nat,
) -> Seq<char> {
    match pairs[i as int].0 {
        MapKeyExpr::Static(key) => key@,
        MapKeyExpr::Dynamic(_) => text_value(picked_key(draws, pairs, i)).text(),
    }
}

/// The entries of the first `count` pairs. Of two pairs of the same key, the last counts.
pub open spec fn pair_entries(
    draws: Seq<u64>,
    pairs: Seq<(MapKeyExpr, Rc<Sequence>)>,
    count: nat,
) -> Map<Seq<char>, ValueView>
    decreases count,
{
    if count == 0 {
        Map::empty()
    } else {
        let last = (count - 1) as nat;
        pair_entries(draws, pairs, last).insert(
            pair_key(draws, pairs, last),
            text_value(pairs[last as int].1),
        )
    }
}

/// How many steps the first `count` pairs take.
pub open spec fn pair_steps(
    draws: Seq<u64>,
    pairs: Seq<(MapKeyExpr, Rc<Sequence>)>,
    count: nat,
) -> nat
    decreases count,
{
    if count == 0 {
        0
    } else {
        let last = (count - 1) as nat;
        pair_steps(draws, pairs, last) + pairs[last as int].1.elements@.len() + 2
            + match pairs[last as int].0 {
            MapKeyExpr::Static(_) => 0nat,
            MapKeyExpr::Dynamic(_) => picked_key(draws, pairs, last).elements@.len() + 1,
        }
    }
}

/// Whether the keys and values are texts, and there are random numbers for the dynamic keys.
pub open spec fn pairs_are_text(draws: Seq<u64>, pairs: Seq<(MapKeyExpr, Rc<Sequence>)>) -> bool {
    &&& dynamic_keys(pairs, pairs.len()) <= draws.len()
    &&& forall|i: nat|
        i < pairs.len() ==> {
            &&& is_text((#[trigger] pairs[i as int]).1)
            &&& pairs[i as int].0 matches MapKeyExpr::Dynamic(block) ==> {
                &&& block.flag != PrintFlag::Sink
                &&& block.elements@.len() > 0
                &&& is_text(picked_key(draws, pairs, i))
            }
        }
}

/// The machine when the intent has been taken, and the intent.
spec fn mapped(m: Machine, init: Rc<Vec<(MapKeyExpr, Rc<Sequence>)>>, count: nat) -> (
    Machine,
    IntentView,
) {
    if count == 0 {
        (m, IntentView::BuildMap { init, pair_index: 0, map: empty_map() })
    } else {
        let last = (count - 1) as nat;
        let with_value = m.vals.push(text_value(init@[last as int].1));
        (
            Machine {
                vals: match init@[last as int].0 {
                    MapKeyExpr::Static(_) => with_value,
                    MapKeyExpr::Dynamic(_) => with_value.push(
                        text_value(picked_key(m.draws, init@, last)),
                    ),
                },
                draws: m.draws.skip(dynamic_keys(init@, count) as int),
                ..m
            },
            IntentView::BuildMap {
                init,
                pair_index: count,
                map: MapView { entries: pair_entries(m.draws, init@, last), ..empty_map() },
            },
        )
    }
}

spec fn mapping(m: Machine, init: Rc<Vec<(MapKeyExpr, Rc<Sequence>)>>, count: nat) -> Machine {
    mapped(m, init, count).0.with_intent(mapped(m, init, count).1)
}

proof fn dynamic_keys_grow(pairs: Seq<(MapKeyExpr, Rc<Sequence>)>, count: nat, more: nat)
    requires
        count <= more,
    ensures
        dynamic_keys(pairs, count) <= dynamic_keys(pairs, more),
    decreases more,
{
    if count < more {
        dynamic_keys_grow(pairs, count, (more - 1) as nat);
    }
}

/// A step takes the pair evaluated last into the map.
proof fn mapping_takes(m: Machine, init: Rc<Vec<(MapKeyExpr, Rc<Sequence>)>>, count: nat)
    requires
        m.stack.frames.len() > 0,
        count <= init@.len(),
    ensures
        ({
            let (taken, intent) = mapped(m, init, count);
            &&& step(mapping(m, init, count)).0 is NeedsDraw || step(mapping(m, init, count))
                == step_intent(taken, intent)
            &&& act(mapping(m, init, count)) == step_intent(taken, intent)
            &&& with_last_pair(taken, init, count, intent->BuildMap_map) == (
                Ok::<MapView, HaltView>(
                    MapView { entries: pair_entries(m.draws, init@, count), ..empty_map() },
                ),
                Machine { draws: m.draws.skip(dynamic_keys(init@, count) as int), ..m },
            )
        }),
{
    let (taken, intent) = mapped(m, init, count);
    intent_comes_off(mapping(m, init, count), taken, intent);
    if count == 0 {
        assert(m.draws.skip(0) =~= m.draws);
        assert(empty_map().entries =~= Map::empty());
    } else {
        let value = m.vals.push(text_value(init@[count - 1].1));
        assert(value.drop_last() =~= m.vals);
        if init@[count - 1].0 is Dynamic {
            assert(taken.vals.drop_last() =~= value);
        }
    }
}

/// The machine with a pair taken, waiting for the next one.
spec fn awaiting(m: Machine, init: Rc<Vec<(MapKeyExpr, Rc<Sequence>)>>, count: nat) -> Machine {
    Machine { draws: m.draws.skip(dynamic_keys(init@, count) as int), ..m }.with_intent(
        mapped(m, init, count + 1).1,
    )
}

/// A pair of a static key is evaluated.
proof fn static_pair_goes_on(m: Machine, init: Rc<Vec<(MapKeyExpr, Rc<Sequence>)>>, count: nat)
    requires
        0 < m.stack.frames.len(),
        m.stack.frames.len() + 2 <= MAX_STACK_SIZE,
        m.vals.len() + 2 <= MAX_STACK_SIZE,
        pairs_are_text(m.draws, init@),
        count < init@.len(),
        init@[count as int].0 is Static,
    ensures
        steps(mapping(m, init, count), init@[count as int].1.elements@.len() + 2) == (
            ProgressView::Running,
            mapping(m, init, count + 1),
        ),
{
    mapping_takes(m, init, count);
    let m1 = mapping(m, init, count);
    let expr = init@[count as int].1;
    assert(is_text(init@[count as int].1));
    let base = awaiting(m, init, count);
    assert(step(m1).1 =~= Machine { stack: base.stack.pushed(fresh_frame(expr, true)), ..base })
        by {
        reveal(step_intent);
    }
    assert(step(m1).0 is Running) by {
        reveal(step_intent);
    }
    text_follows(m1, base, expr);
    assert(Machine { vals: base.vals.push(text_value(expr)), ..base } =~= mapping(
        m,
        init,
        count + 1,
    ));
}

/// A pair of a dynamic key is evaluated, the value first.
proof fn dynamic_pair_goes_on(m: Machine, init: Rc<Vec<(MapKeyExpr, Rc<Sequence>)>>, count: nat)
    requires
        0 < m.stack.frames.len(),
        m.stack.frames.len() + 2 <= MAX_STACK_SIZE,
        m.vals.len() + 2 <= MAX_STACK_SIZE,
        pairs_are_text(m.draws, init@),
        count < init@.len(),
        init@[count as int].0 is Dynamic,
    ensures
        steps(
            mapping(m, init, count),
            init@[count as int].1.elements@.len() + 2 + picked_key(
                m.draws,
                init@,
                count,
            ).elements@.len() + 1,
        ) == (ProgressView::Running, mapping(m, init, count + 1)),
{
    mapping_takes(m, init, count);
    dynamic_keys_grow(init@, count + 1, init@.len());
    let m1 = mapping(m, init, count);
    let expr = init@[count as int].1;
    let picked = picked_key(m.draws, init@, count);
    assert(is_text(init@[count as int].1));
    let used = dynamic_keys(init@, count) as int;
    let base = awaiting(m, init, count);
    assert(base.draws[0] == m.draws[used]);
    assert(base.draws.drop_first() =~= m.draws.skip(used + 1));
    let drawn = Machine { draws: m.draws.skip(used + 1), ..base };
    let keyed = Machine { stack: drawn.stack.pushed(fresh_frame(picked, true)), ..drawn };
    assert(step(m1).1 =~= Machine { stack: keyed.stack.pushed(fresh_frame(expr, true)), ..keyed })
        by {
        reveal(step_intent);
    }
    assert(step(m1).0 is Running) by {
        reveal(step_intent);
    }
    text_follows(m1, keyed, expr);
    let m2 = Machine { vals: m.vals.push(text_value(expr)), ..keyed };
    assert(m2.top() == fresh_frame(picked, true));
    text_evaluates(m2, picked);
    assert(m2.stack.popped() =~= drawn.stack);
    lemma_steps_compose(m1, expr.elements@.len() + 2, picked.elements@.len() + 1);
    assert(Machine { vals: m2.vals.push(text_value(picked)), ..drawn } =~= mapping(
        m,
        init,
        count + 1,
    ));
}

proof fn mapping_goes_on(m: Machine, init: Rc<Vec<(MapKeyExpr, Rc<Sequence>)>>, count: nat)
    requires
        0 < m.stack.frames.len(),
        m.stack.frames.len() + 2 <= MAX_STACK_SIZE,
        m.vals.len() + 2 <= MAX_STACK_SIZE,
        pairs_are_text(m.draws, init@),
        count <= init@.len(),
    ensures
        steps(mapping(m, init, 0), pair_steps(m.draws, init@, count)) == (
            ProgressView::Running,
            mapping(m, init, count),
        ),
    decreases count,
{
    if count > 0 {
        let last = (count - 1) as nat;
        mapping_goes_on(m, init, last);
        if init@[last as int].0 is Static {
            static_pair_goes_on(m, init, last);
        } else {
            dynamic_pair_goes_on(m, init, last);
        }
        let cost = (pair_steps(m.draws, init@, count) - pair_steps(m.draws, init@, last)) as nat;
        lemma_steps_compose(mapping(m, init, 0), pair_steps(m.draws, init@, last), cost);
    }
}

/// A map initializer prints a new map that holds the values of its pairs under their keys. Nothing
/// else changes but that a random number is used for each dynamic key.
///
/// The keys and values are texts here.
pub proof fn maps_hold_their_pairs(
    m: Machine,
    element: Rc<RST>,
    init: Rc<Vec<(MapKeyExpr, Rc<Sequence>)>>,
)
    requires
        0 < m.stack.frames.len(),
        m.stack.frames.len() + 2 <= MAX_STACK_SIZE,
        m.vals.len() + 2 <= MAX_STACK_SIZE,
        *element matches RST::MapInit(i) && i == init,
        pairs_are_text(m.draws, init@),
    ensures
        steps(step_element(m, element).1, pair_steps(m.draws, init@, init@.len()) + 1) == (
            ProgressView::Running,
            Machine {
                engine: EngineView {
                    maps: m.engine.maps.push(
                        MapView {
                            entries: pair_entries(m.draws, init@, init@.len()),
                            ..empty_map()
                        },
                    ),
                    ..m.engine
                },
                draws: m.draws.skip(dynamic_keys(init@, init@.len()) as int),
                ..m
            }.with_value(ValueView::MapRef(RantMapRef { id: m.engine.maps.len() as usize })),
        ),
{
    reveal(step_element);
    reveal(step_intent);
    reveal_with_fuel(steps, 2);
    let len = init@.len();
    assert(step_element(m, element).1 == mapping(m, init, 0));
    mapping_goes_on(m, init, len);
    mapping_takes(m, init, len);
    let m1 = mapping(m, init, len);
    assert(steps(m1, 1) == step(m1));
    lemma_steps_compose(mapping(m, init, 0), pair_steps(m.draws, init@, len), 1);
}

// Calls.

/// With a call that has evaluated its first arguments, above its function.
spec fn calling(
    m: Machine,
    func: ValueView,
    arg_exprs: Rc<Vec<Rc<Sequence>>>,
    flag: PrintFlag,
    count: nat,
) -> Machine {
    with_vals(m, seq![func] + text_values(arg_exprs@, count)).with_intent(
        IntentView::Invoke { arg_exprs, eval_count: count, flag },
    )
}

proof fn calling_goes_on(
    m: Machine,
    func: ValueView,
    arg_exprs: Rc<Vec<Rc<Sequence>>>,
    flag: PrintFlag,
    count: nat,
)
    requires
        0 < m.stack.frames.len() < MAX_STACK_SIZE,
        m.vals.len() + 1 + arg_exprs@.len() <= MAX_STACK_SIZE,
        forall|i: int| 0 <= i < arg_exprs@.len() ==> is_text(#[trigger] arg_exprs@[i]),
        count <= arg_exprs@.len(),
    ensures
        steps(calling(m, func, arg_exprs, flag, 0), text_steps(arg_exprs@, count)) == (
            ProgressView::Running,
            calling(m, func, arg_exprs, flag, count),
        ),
    decreases count,
{
    if count > 0 {
        let before = (count - 1) as nat;
        calling_goes_on(m, func, arg_exprs, flag, before);
        reveal(step_intent);
        let m1 = calling(m, func, arg_exprs, flag, before);
        let taken = with_vals(m, seq![func] + text_values(arg_exprs@, before));
        intent_comes_off(m1, taken, IntentView::Invoke { arg_exprs, eval_count: before, flag });
        let base = taken.with_intent(IntentView::Invoke { arg_exprs, eval_count: count, flag });
        let expr = arg_exprs@[before as int];
        assert(step(m1).1 =~= Machine {
            stack: base.stack.pushed(fresh_frame(expr, true)),
            ..base
        });
        text_follows(m1, base, expr);
        assert(base.vals.push(text_value(expr)) =~= with_vals(
            m,
            seq![func] + text_values(arg_exprs@, count),
        ).vals);
        assert(steps(m1, expr.elements@.len() + 2).1 =~= calling(m, func, arg_exprs, flag, count));
        lemma_steps_compose(
            calling(m, func, arg_exprs, flag, 0),
            text_steps(arg_exprs@, before),
            expr.elements@.len() + 2,
        );
    }
}

/// A call of a variable that holds a function calls it with the values of the arguments in order.
///
/// The arguments are texts here.
pub proof fn calls_pass_their_arguments_in_order(
    m: Machine,
    element: Rc<RST>,
    id: Rc<VarAccessPath>,
    name: Seq<char>,
    func: Rc<RantFunction>,
    arg_exprs: Rc<Vec<Rc<Sequence>>>,
    flag: PrintFlag,
)
    requires
        0 < m.stack.frames.len() < MAX_STACK_SIZE,
        m.top().intents.len() == 0,
        m.vals.len() + 1 + arg_exprs@.len() <= MAX_STACK_SIZE,
        *element matches RST::FuncCall(call) && call.id == id && call.arguments == arg_exprs
            && call.flag == flag,
        id.parts@.len() == 1,
        id.parts@[0] matches VarAccessComponent::Name(n) && n@ == name,
        get_local(m, name) == Ok::<ValueView, HaltView>(ValueView::Function(func)),
        forall|i: int| 0 <= i < arg_exprs@.len() ==> is_text(#[trigger] arg_exprs@[i]),
    ensures
        ({
            let args = Seq::new(arg_exprs@.len(), |i: int| text_value(arg_exprs@[i]));
            let outcome = call(m, func, args, flag);
            outcome.0 is NeedsDraw || steps(
                step_element(m, element).1,
                text_steps(arg_exprs@, arg_exprs@.len()) + 2,
            ) == outcome
        }),
{
    reveal(step_element);
    reveal(step_intent);
    reveal_with_fuel(steps, 2);
    reveal_with_fuel(expressions, 2);
    let len = arg_exprs@.len();
    let callee = ValueView::Function(func);
    let invoke = IntentView::Invoke { arg_exprs, eval_count: 0, flag };
    let get = IntentView::GetValue { path: id, dynamic_key_count: 0, override_print: true };
    let m1 = step_element(m, element).1;
    assert(m1.top().intents =~= seq![get, invoke]);
    let waiting = m.with_intent(invoke);
    assert(waiting.top().intents =~= seq![invoke]);
    let ready = waiting.with_intent(get);
    assert(ready.top().intents =~= seq![get, invoke]);
    assert(m1.top() =~= ready.top());
    assert(m1.stack.frames =~= ready.stack.frames);
    assert(m1 =~= ready);
    intent_comes_off(m1, waiting, get);
    assert(waiting.vals.take(waiting.vals.len() as int) =~= waiting.vals);
    assert(pop_vals(waiting, 0).1 =~= waiting);
    assert(get_local(waiting, name) == get_local(m, name));
    let m2 = calling(m, callee, arg_exprs, flag, 0);
    assert(step(m1).1 =~= m2);
    assert(steps(m1, 1) == (ProgressView::Running, m2));
    calling_goes_on(m, callee, arg_exprs, flag, len);
    lemma_steps_compose(m1, 1, text_steps(arg_exprs@, len));
    let m3 = calling(m, callee, arg_exprs, flag, len);
    let args = Seq::new(len, |i: int| text_value(arg_exprs@[i]));
    assert(text_values(arg_exprs@, len) =~= args);
    let above = with_vals(m, seq![callee] + args);
    intent_comes_off(m3, above, IntentView::Invoke { arg_exprs, eval_count: len, flag });
    arguments_arrive_in_order(m, func, args, arg_exprs, flag);
    assert(steps(m3, 1) == step(m3));
    lemma_steps_compose(m1, 1 + text_steps(arg_exprs@, len), 1);
}

/// The call of a closure calls a function of its body and its parameters, with the values of the
/// arguments in order.
///
/// The arguments are texts here.
pub proof fn closures_are_called_in_place(
    m: Machine,
    element: Rc<RST>,
    expr: Rc<Sequence>,
    closure: Rc<RST>,
    func: Rc<RantFunction>,
    params: Rc<Vec<Parameter>>,
    body: Rc<Block>,
    arg_exprs: Rc<Vec<Rc<Sequence>>>,
    flag: PrintFlag,
)
    requires
        0 < m.stack.frames.len() < MAX_STACK_SIZE,
        m.vals.len() + 1 + arg_exprs@.len() <= MAX_STACK_SIZE,
        *element matches RST::AnonFuncCall(call) && call.expr == expr && call.args == arg_exprs
            && call.flag == flag,
        expr.elements@ == seq![closure],
        *closure matches RST::Closure(c) && c.params == params && c.expr == body,
        *func == (RantFunction {
            body: RantFunctionInterface::User(body),
            params,
            min_arg_count: required_count(params@) as usize,
            vararg_start_index: variadic_start(params@) as usize,
        }),
        forall|i: int| 0 <= i < arg_exprs@.len() ==> is_text(#[trigger] arg_exprs@[i]),
    ensures
        ({
            let args = Seq::new(arg_exprs@.len(), |i: int| text_value(arg_exprs@[i]));
            let outcome = call(m, func, args, flag);
            outcome.0 is NeedsDraw || steps(
                step_element(m, element).1,
                text_steps(arg_exprs@, arg_exprs@.len()) + 3,
            ) == outcome
        }),
{
    reveal_with_fuel(steps, 3);
    let callee = ValueView::Function(func);
    let invoke = IntentView::Invoke { arg_exprs, eval_count: 0, flag };
    let base = m.with_intent(invoke);
    let fresh = fresh_frame(expr, true);
    let m1 = step_element(m, element).1;
    assert(m1 =~= Machine { stack: base.stack.pushed(fresh), ..base }) by {
        reveal(step_element);
    }
    let ran = FrameView {
        started: true,
        output: Some(seq![PieceView::Value(callee)]),
        ..fresh
    };
    let m2 = Machine { stack: base.stack.pushed(ran), ..base };
    assert(m1.top() == fresh);
    assert(fresh.advanced().0 == Some(closure));
    assert(step(m1) == (ProgressView::Running, m2)) by {
        reveal(step_element);
        assert(Seq::<PieceView>::empty().push(PieceView::Value(callee)) =~= seq![
            PieceView::Value(callee),
        ]);
        assert(step(m1).1.top() =~= ran);
        assert(step(m1).1 =~= m2);
    }
    assert(m2.top() == ran);
    assert(ran.advanced().0 is None);
    let m3 = calling(m, callee, arg_exprs, flag, 0);
    assert(m2.stack.popped() =~= base.stack);
    assert(text_values(arg_exprs@, 0) =~= Seq::empty());
    assert(m.vals.push(callee) =~= m.vals + (seq![callee] + text_values(arg_exprs@, 0)));
    assert(step(m2).1 =~= m3);
    assert(steps(m2, 1) == (ProgressView::Running, m3));
    assert(steps(m1, 1) == (ProgressView::Running, m2));
    lemma_steps_compose(m1, 1, 1);
    call_ends(m, func, arg_exprs, flag, m1, 2);
}

/// Once the function is there, the arguments are evaluated and it is called.
proof fn call_ends(
    m: Machine,
    func: Rc<RantFunction>,
    arg_exprs: Rc<Vec<Rc<Sequence>>>,
    flag: PrintFlag,
    start: Machine,
    count: nat,
)
    requires
        0 < m.stack.frames.len() < MAX_STACK_SIZE,
        m.vals.len() + 1 + arg_exprs@.len() <= MAX_STACK_SIZE,
        forall|i: int| 0 <= i < arg_exprs@.len() ==> is_text(#[trigger] arg_exprs@[i]),
        steps(start, count) == (
            ProgressView::Running,
            calling(m, ValueView::Function(func), arg_exprs, flag, 0),
        ),
    ensures
        ({
            let args = Seq::new(arg_exprs@.len(), |i: int| text_value(arg_exprs@[i]));
            let outcome = call(m, func, args, flag);
            outcome.0 is NeedsDraw || steps(
                start,
                count + text_steps(arg_exprs@, arg_exprs@.len()) + 1,
            ) == outcome
        }),
{
    reveal(step_intent);
    reveal_with_fuel(steps, 2);
    let len = arg_exprs@.len();
    let callee = ValueView::Function(func);
    calling_goes_on(m, callee, arg_exprs, flag, len);
    lemma_steps_compose(start, count, text_steps(arg_exprs@, len));
    let m3 = calling(m, callee, arg_exprs, flag, len);
    let args = Seq::new(len, |i: int| text_value(arg_exprs@[i]));
    assert(text_values(arg_exprs@, len) =~= args);
    let above = with_vals(m, seq![callee] + args);
    intent_comes_off(m3, above, IntentView::Invoke { arg_exprs, eval_count: len, flag });
    arguments_arrive_in_order(m, func, args, arg_exprs, flag);
    assert(steps(m3, 1) == step(m3));
    lemma_steps_compose(start, count + text_steps(arg_exprs@, len), 1);
}

/// A call of a value that is no function fails, whatever the arguments are.
pub proof fn only_functions_are_called(
    m: Machine,
    value: ValueView,
    args: Seq<ValueView>,
    arg_exprs: Rc<Vec<Rc<Sequence>>>,
    flag: PrintFlag,
)
    requires
        args.len() == arg_exprs@.len(),
        !(value is Function),
    ensures
        step_intent(
            with_vals(m, seq![value] + args),
            IntentView::Invoke { arg_exprs, eval_count: arg_exprs@.len(), flag },
        ) == (
            ProgressView::Failed(
                ErrorView {
                    error_type: ErrorTypeView::CannotInvokeValue,
                    description: Some("cannot invoke '"@ + value.type_text() + "' value"@),
                },
            ),
            m,
        ),
{
    reveal(step_intent);
    let start = with_vals(m, seq![value] + args);
    let (popped, m1) = pop_vals(start, args.len());
    assert(m1.vals =~= m.vals.push(value));
    assert(m1.vals.drop_last() =~= m.vals);
    assert(pop_val(m1).1 =~= m);
}

/// A function of the program that is called runs an element of its body, which the next random
/// number picks, with its arguments as local variables. What it prints is printed, unless the call
/// is a sink or, where the call says nothing, the body is one.
pub proof fn called_functions_run_their_body(
    m: Machine,
    func: Rc<RantFunction>,
    body: Rc<Block>,
    args: Seq<ValueView>,
    flag: PrintFlag,
    i: int,
)
    requires
        m.wf(),
        0 < m.stack.frames.len() < MAX_STACK_SIZE,
        m.draws.len() > 0,
        func.body == RantFunctionInterface::User(body),
        func.vararg_start_index >= func.params@.len(),
        func.min_arg_count <= args.len() <= func.params@.len(),
        body.elements@.len() > 0,
        distinct(func.params@),
        0 <= i < func.params@.len(),
    ensures
        ({
            let picked = body.elements@[m.draws[0] as int % body.elements@.len() as int];
            let silent = flag == PrintFlag::Sink || flag == PrintFlag::Plain && body.flag
                == PrintFlag::Sink;
            let (progress, after) = call(m, func, args, flag);
            &&& progress is Running
            &&& after.stack.frames.len() == m.stack.frames.len() + 1
            &&& after.stack.frames.last() == fresh_frame(picked, !silent)
            &&& after.stack.frames[m.stack.frames.len() - 1] == if silent {
                m.top()
            } else {
                FrameView {
                    intents: seq![IntentView::PrintLastOutput] + m.top().intents,
                    ..m.top()
                }
            }
            &&& after.draws == m.draws.drop_first()
            &&& after.vals == m.vals
            &&& after.engine == m.engine
            &&& get_local(after, func.params@[i].name@) == Ok::<ValueView, HaltView>(
                if i < args.len() {
                    args[i]
                } else {
                    ValueView::Empty
                },
            )
        }),
{
    let picked = body.elements@[m.draws[0] as int % body.elements@.len() as int];
    let silent = flag == PrintFlag::Sink || flag == PrintFlag::Plain && body.flag
        == PrintFlag::Sink;
    let m1 = Machine { draws: m.draws.drop_first(), ..m };
    let m2 = if silent {
        m1
    } else {
        m1.with_intent(IntentView::PrintLastOutput)
    };
    parameters_hold_their_arguments(m2, picked, !silent, func.params@, args, i);
    lemma_with_args_frames(
        m2.stack.pushed(fresh_frame(picked, !silent)),
        func.params@,
        args,
    );
}

/// An intent to assign or to define a variable takes the value on top of the value stack for it.
pub proof fn intents_take_the_value_on_top(m: Machine, name: Seq<char>, value: ValueView)
    requires
        m.wf(),
    ensures
        ({
            let start = with_vals(m, seq![value]);
            let (progress, after) = step_intent(start, IntentView::DefVar { vname: name });
            &&& progress is Running
            &&& get_local(after, name) == Ok::<ValueView, HaltView>(value)
            &&& after.vals == m.vals && after.engine == m.engine
        }),
        get_local(m, name) is Ok ==> {
            let start = with_vals(m, seq![value]);
            let (progress, after) = step_intent(start, IntentView::SetVar { vname: name });
            &&& progress is Running
            &&& get_local(after, name) == Ok::<ValueView, HaltView>(value)
            &&& after.vals == m.vals
        },
{
    reveal(step_intent);
    let start = with_vals(m, seq![value]);
    assert(start.vals.drop_last() =~= m.vals);
    assert(pop_val(start).1 =~= m);
    local_definition_reads_back(m.stack, m.engine.globals, name, value);
    assignable_iff_readable(m.stack, m.engine.globals, name, AccessPathKind::Local);
    if m.stack.can_assign(m.engine.globals, name, AccessPathKind::Local) {
        assignment_reads_back(m.stack, m.engine, name, AccessPathKind::Local, value);
    }
}

/// A program that has ended gives the text of the value that is left, and nothing if none is.
pub proof fn programs_end_with_their_output(m: Machine, value: ValueView)
    requires
        m.stack.frames.len() == 0,
    ensures
        m.vals.len() > 0 && m.vals.last() == value ==> step(m).0 == ProgressView::Finished(
            value.text(),
        ),
        m.vals.len() == 0 ==> step(m).0 == ProgressView::Finished(Seq::empty()),
{
}

// Getters and setters.

/// The element of the key expression `i` of a getter that the random numbers pick. The last
/// expression is evaluated first.
pub open spec fn getter_pick(draws: Seq<u64>, exprs: Seq<Rc<Block>>, i: int) -> Rc<Sequence> {
    exprs[i].elements@[draws[exprs.len() - 1 - i] as int % exprs[i].elements@.len() as int]
}

/// The values of the key expressions of a getter, in the order of the path.
pub open spec fn getter_keys(draws: Seq<u64>, exprs: Seq<Rc<Block>>) -> Seq<ValueView> {
    Seq::new(exprs.len(), |i: int| text_value(getter_pick(draws, exprs, i)))
}

/// How many steps the last `count` key expressions of a getter take.
pub open spec fn getter_steps(draws: Seq<u64>, exprs: Seq<Rc<Block>>, count: nat) -> nat
    decreases count,
{
    if count == 0 {
        0
    } else {
        getter_steps(draws, exprs, (count - 1) as nat) + getter_pick(
            draws,
            exprs,
            exprs.len() - count,
        ).elements@.len() + 2
    }
}

/// Whether the keys are texts, and there are random numbers for them.
pub open spec fn keys_are_text(draws: Seq<u64>, exprs: Seq<Rc<Block>>) -> bool {
    &&& exprs.len() <= draws.len()
    &&& forall|i: int|
        0 <= i < exprs.len() ==> {
            &&& (#[trigger] exprs[i]).flag != PrintFlag::Sink
            &&& exprs[i].elements@.len() > 0
            &&& is_text(getter_pick(draws, exprs, i))
        }
}

/// The intent of a getter that has evaluated its last `count` key expressions.
spec fn getting_intent(
    path: Rc<VarAccessPath>,
    exprs: Seq<Rc<Block>>,
    override_print: bool,
    count: nat,
) -> IntentView {
    if count == exprs.len() {
        IntentView::GetValue { path, dynamic_key_count: exprs.len(), override_print }
    } else {
        IntentView::BuildDynamicGetter {
            path,
            dynamic_key_count: exprs.len(),
            pending_exprs: exprs.take(exprs.len() - count),
            override_print,
        }
    }
}

/// A machine whose getter has evaluated its last `count` key expressions.
spec fn got(m: Machine, exprs: Seq<Rc<Block>>, count: nat) -> Machine {
    Machine {
        vals: m.vals + getter_keys(m.draws, exprs).reverse().take(count as int),
        draws: m.draws.skip(count as int),
        ..m
    }
}

proof fn getting_goes_on(
    m: Machine,
    path: Rc<VarAccessPath>,
    exprs: Seq<Rc<Block>>,
    override_print: bool,
    count: nat,
)
    requires
        0 < m.stack.frames.len() < MAX_STACK_SIZE,
        m.vals.len() + exprs.len() <= MAX_STACK_SIZE,
        keys_are_text(m.draws, exprs),
        count <= exprs.len(),
    ensures
        steps(
            got(m, exprs, 0).with_intent(getting_intent(path, exprs, override_print, 0)),
            getter_steps(m.draws, exprs, count),
        ) == (
            ProgressView::Running,
            got(m, exprs, count).with_intent(getting_intent(path, exprs, override_print, count)),
        ),
    decreases count,
{
    if count > 0 {
        let before = (count - 1) as nat;
        getting_goes_on(m, path, exprs, override_print, before);
        let intent = getting_intent(path, exprs, override_print, before);
        let next = getting_intent(path, exprs, override_print, count);
        let m0 = got(m, exprs, before);
        let m1 = m0.with_intent(intent);
        intent_comes_off(m1, m0, intent);
        let place = exprs.len() - count;
        let block = exprs[place];
        let expr = getter_pick(m.draws, exprs, place);
        let pending = exprs.take(exprs.len() - before);
        assert(pending.last() == block);
        assert(pending.drop_last() =~= exprs.take(place));
        let base = Machine { draws: m.draws.skip(count as int), ..m0 }.with_intent(next);
        assert(m0.draws.drop_first() =~= m.draws.skip(count as int));
        assert(m0.draws[0] == m.draws[before as int]);
        assert(step(m1).1 =~= Machine {
            stack: base.stack.pushed(fresh_frame(expr, true)),
            ..base
        }) by {
            reveal(step_intent);
        }
        assert(step(m1).0 is Running) by {
            reveal(step_intent);
        }
        text_follows(m1, base, expr);
        let keys = getter_keys(m.draws, exprs).reverse();
        assert(keys[before as int] == text_value(expr));
        assert(m0.vals.push(text_value(expr)) =~= m.vals + keys.take(count as int));
        assert(steps(m1, expr.elements@.len() + 2).1 =~= got(m, exprs, count).with_intent(next));
        lemma_steps_compose(
            got(m, exprs, 0).with_intent(getting_intent(path, exprs, override_print, 0)),
            getter_steps(m.draws, exprs, before),
            expr.elements@.len() + 2,
        );
    }
}

/// A getter prints what its path leads to, where each key expression in the path stands for its own
/// value. Nothing else changes but that a random number is used for each.
///
/// The keys are texts here.
pub proof fn getters_print_what_they_lead_to(
    m: Machine,
    element: Rc<RST>,
    path: Rc<VarAccessPath>,
    value: ValueView,
)
    requires
        0 < m.stack.frames.len() < MAX_STACK_SIZE,
        *element matches RST::VarGet(p) && p == path,
        m.vals.len() + expressions(path.parts@).len() <= MAX_STACK_SIZE,
        keys_are_text(m.draws, expressions(path.parts@)),
        follow(
            m,
            *path,
            getter_keys(m.draws, expressions(path.parts@)),
            path.parts@.len() as int,
        ) == Ok::<ValueView, HaltView>(value),
    ensures
        ({
            let exprs = expressions(path.parts@);
            steps(
                step_element(m, element).1,
                getter_steps(m.draws, exprs, exprs.len()) + 1,
            ) == (
                ProgressView::Running,
                Machine { draws: m.draws.skip(exprs.len() as int), ..m }.with_value(value),
            )
        }),
{
    let exprs = expressions(path.parts@);
    let len = exprs.len();
    let keys = getter_keys(m.draws, exprs);
    let m1 = step_element(m, element).1;
    assert(m.draws.skip(0) =~= m.draws);
    assert(m.vals + keys.reverse().take(0) =~= m.vals);
    assert(got(m, exprs, 0) =~= m);
    assert(exprs.take(len as int) =~= exprs);
    assert(m1 == m.with_intent(getting_intent(path, exprs, false, 0))) by {
        reveal(step_element);
    }
    getting_goes_on(m, path, exprs, false, len);
    let intent = getting_intent(path, exprs, false, len);
    let m2 = got(m, exprs, len);
    let m3 = m2.with_intent(intent);
    intent_comes_off(m3, m2, intent);
    let m4 = Machine { draws: m.draws.skip(len as int), ..m };
    assert(keys.reverse().take(len as int) =~= keys.reverse());
    let (popped, left) = pop_vals(m2, len);
    assert(popped->Ok_0 =~= keys);
    assert(left =~= m4);
    follow_ignores_draws(m, m4, path, keys, path.parts@.len() as int);
    assert(step(m3) == (ProgressView::Running, m4.with_value(value))) by {
        reveal(step_intent);
    }
    reveal_with_fuel(steps, 2);
    assert(steps(m3, 1) == step(m3));
    lemma_steps_compose(m1, getter_steps(m.draws, exprs, len), 1);
}

proof fn follow_ignores_draws(
    m: Machine,
    other: Machine,
    path: Rc<VarAccessPath>,
    keys: Seq<ValueView>,
    count: int,
)
    requires
        other.stack == m.stack,
        other.engine == m.engine,
    ensures
        follow(other, *path, keys, count) == follow(m, *path, keys, count),
    decreases count,
{
    if count > 1 {
        follow_ignores_draws(m, other, path, keys, count - 1);
    }
}

/// A setter writes its value to the place that its path leads to, where each key expression in the
/// path stands for its own value.
///
/// The keys and the value are texts here.
pub proof fn setters_write_where_they_lead_to(
    m: Machine,
    element: Rc<RST>,
    path: Rc<VarAccessPath>,
    expr: Rc<Sequence>,
)
    requires
        0 < m.stack.frames.len() < MAX_STACK_SIZE,
        *element matches RST::VarSet(p, e) && p == path && e == expr,
        m.vals.len() + expressions(path.parts@).len() < MAX_STACK_SIZE,
        m.draws.len() >= expressions(path.parts@).len(),
        is_text(expr),
        forall|i: int|
            0 <= i < expressions(path.parts@).len() ==> {
                &&& (#[trigger] expressions(path.parts@)[i]).flag != PrintFlag::Sink
                &&& expressions(path.parts@)[i].elements@.len() > 0
                &&& is_text(chosen(m.draws, expressions(path.parts@), i))
            },
    ensures
        ({
            let exprs = expressions(path.parts@);
            let keys = key_values(m.draws, exprs, exprs.len());
            let turn: nat = if exprs.len() == 0 {
                2
            } else {
                3
            };
            let count = key_steps(m.draws, exprs, exprs.len()) + expr.elements@.len() + turn;
            let outcome = write_to(
                Machine { draws: m.draws.skip(exprs.len() as int), ..m },
                *path,
                false,
                keys,
                text_value(expr),
            );
            outcome.0 is Ok ==> steps(step_element(m, element).1, count) == (
                ProgressView::Running,
                outcome.1,
            )
        }),
{
    let exprs = expressions(path.parts@);
    let len = exprs.len();
    let keys = key_values(m.draws, exprs, len);
    let m0 = Machine { draws: m.draws.skip(len as int), ..m };
    let set = IntentView::SetValue { path, auto_def: false, expr_count: len };
    let source = SourceView::FromExpression(expr);
    let m1 = step_element(m, element).1;
    let below = with_vals(m0, keys);
    let base = below.with_intent(set);
    reveal_with_fuel(steps, 2);
    if len == 0 {
        assert(keys =~= Seq::empty());
        assert(m.draws.skip(0) =~= m.draws);
        assert(m0.vals + keys =~= m0.vals);
        assert(m1 =~= Machine { stack: base.stack.pushed(fresh_frame(expr, true)), ..base }) by {
            reveal(step_element);
        }
        assert(m1.top() == fresh_frame(expr, true));
        text_evaluates(m1, expr);
        assert(m1.stack.popped() =~= base.stack);
        setter_ends(m0, path, keys, expr, m1, expr.elements@.len() + 1);
    } else {
        assert(exprs.skip(0) =~= exprs);
        assert(m1 == setting(m, path, false, exprs, 0, source)) by {
            reveal(step_element);
        }
        setter_keys_are_evaluated_in_order(m, path, false, exprs, len, source);
        let m2 = setting(below, path, false, exprs, len, source);
        assert(exprs.skip(len as int).reverse() =~= Seq::empty());
        let intent = m2.top().intents[0];
        intent_comes_off(m2, below, intent);
        assert(step(m2).1 =~= Machine {
            stack: base.stack.pushed(fresh_frame(expr, true)),
            ..base
        }) by {
            reveal(step_intent);
        }
        assert(step(m2).0 is Running) by {
            reveal(step_intent);
        }
        text_follows(m2, base, expr);
        lemma_steps_compose(m1, key_steps(m.draws, exprs, len), expr.elements@.len() + 2);
        setter_ends(
            m0,
            path,
            keys,
            expr,
            m1,
            key_steps(m.draws, exprs, len) + expr.elements@.len() + 2,
        );
    }
}

/// The keys below a value belong to the expressions in the path in order.
proof fn keys_lie_in_order(
    m: Machine,
    path: Rc<VarAccessPath>,
    auto_def: bool,
    keys: Seq<ValueView>,
    value: ValueView,
)
    ensures
        set_value(with_vals(m, keys.push(value)), *path, auto_def, keys.len()) == write_to(
            m,
            *path,
            auto_def,
            keys,
            value,
        ),
{
    let start = with_vals(m, keys.push(value));
    let below = with_vals(m, keys);
    assert(start.vals.drop_last() =~= below.vals);
    let (popped, left) = pop_vals(below, keys.len());
    assert(popped->Ok_0.reverse() =~= keys);
    assert(left =~= m);
}

/// Once the keys and the value are there, a setter writes.
proof fn setter_ends(
    m: Machine,
    path: Rc<VarAccessPath>,
    keys: Seq<ValueView>,
    expr: Rc<Sequence>,
    start: Machine,
    count: nat,
)
    requires
        0 < m.stack.frames.len(),
        ({
            let base = with_vals(m, keys).with_intent(
                IntentView::SetValue { path, auto_def: false, expr_count: keys.len() },
            );
            steps(start, count) == (
                ProgressView::Running,
                Machine { vals: base.vals.push(text_value(expr)), ..base },
            )
        }),
    ensures
        ({
            let outcome = write_to(m, *path, false, keys, text_value(expr));
            outcome.0 is Ok ==> steps(start, count + 1) == (ProgressView::Running, outcome.1)
        }),
{
    reveal_with_fuel(steps, 2);
    let set = IntentView::SetValue { path, auto_def: false, expr_count: keys.len() };
    let value = text_value(expr);
    let ready = with_vals(m, keys.push(value));
    let base = with_vals(m, keys).with_intent(set);
    let m1 = Machine { vals: base.vals.push(value), ..base };
    assert(m1.vals =~= ready.vals);
    assert(m1 =~= ready.with_intent(set));
    intent_comes_off(m1, ready, set);
    keys_lie_in_order(m, path, false, keys, value);
    assert(write_to(m, *path, false, keys, value).0 is Ok ==> step(m1) == (
        ProgressView::Running,
        write_to(m, *path, false, keys, value).1,
    )) by {
        reveal(step_intent);
    }
    assert(steps(m1, 1) == step(m1));
    lemma_steps_compose(start, count, 1);
}

/// A function definition writes a function of that body and those parameters to the place that its
/// path leads to, and defines the variable if that is the place.
///
/// The path has no key expressions here.
pub proof fn function_definitions_write_functions(
    m: Machine,
    element: Rc<RST>,
    id: Rc<VarAccessPath>,
    params: Rc<Vec<Parameter>>,
    body: Rc<Block>,
    func: Rc<RantFunction>,
)
    requires
        m.stack.frames.len() > 0,
        m.vals.len() < MAX_STACK_SIZE,
        *element matches RST::FuncDef(def) && def.id == id && def.params == params && def.body
            == body,
        expressions(id.parts@).len() == 0,
        *func == (RantFunction {
            body: RantFunctionInterface::User(body),
            params,
            min_arg_count: required_count(params@) as usize,
            vararg_start_index: variadic_start(params@) as usize,
        }),
    ensures
        ({
            let outcome = write_to(m, *id, true, Seq::empty(), ValueView::Function(func));
            outcome.0 is Ok ==> steps(step_element(m, element).1, 2) == (
                ProgressView::Running,
                outcome.1,
            )
        }),
{
    reveal_with_fuel(steps, 3);
    let exprs = expressions(id.parts@);
    let value = ValueView::Function(func);
    let m1 = step_element(m, element).1;
    assert(exprs.reverse() =~= Seq::empty());
    let build = IntentView::BuildDynamicSetter {
        path: id,
        auto_def: true,
        expr_count: 0,
        pending_exprs: Seq::empty(),
        val_source: SourceView::FromValue(value),
    };
    assert(m1 == m.with_intent(build)) by {
        reveal(step_element);
    }
    intent_comes_off(m1, m, build);
    let set = IntentView::SetValue { path: id, auto_def: true, expr_count: 0 };
    let ready = with_vals(m, Seq::empty().push(value));
    let m2 = ready.with_intent(set);
    assert(m.vals + Seq::empty().push(value) =~= m.vals.push(value));
    assert(step(m1).1 =~= m2 && step(m1).0 is Running) by {
        reveal(step_intent);
    }
    intent_comes_off(m2, ready, set);
    keys_lie_in_order(m, id, true, Seq::empty(), value);
    assert(write_to(m, *id, true, Seq::empty(), value).0 is Ok ==> step(m2) == (
        ProgressView::Running,
        write_to(m, *id, true, Seq::empty(), value).1,
    )) by {
        reveal(step_intent);
    }
    assert(steps(m2, 1) == step(m2) || !(step(m2).0 is Running));
    lemma_steps_compose(m1, 1, 1);
    assert(steps(m1, 1) == (ProgressView::Running, m2));
}

/// Literals print their values, and a closure prints a function of its body and its parameters.
pub proof fn literals_print_themselves(
    m: Machine,
    element: Rc<RST>,
    n: i64,
    b: bool,
    params: Rc<Vec<Parameter>>,
    body: Rc<Block>,
    func: Rc<RantFunction>,
)
    requires
        m.stack.frames.len() > 0,
        *func == (RantFunction {
            body: RantFunctionInterface::User(body),
            params,
            min_arg_count: required_count(params@) as usize,
            vararg_start_index: variadic_start(params@) as usize,
        }),
    ensures
        *element == RST::Integer(n) ==> step_element(m, element) == (
            Ok::<(), HaltView>(()),
            m.with_value(ValueView::Integer(n)),
        ),
        *element == RST::Boolean(b) ==> step_element(m, element) == (
            Ok::<(), HaltView>(()),
            m.with_value(ValueView::Boolean(b)),
        ),
        *element is EmptyVal ==> step_element(m, element) == (
            Ok::<(), HaltView>(()),
            m.with_value(ValueView::Empty),
        ),
        *element matches RST::Float(x) ==> step_element(m, element) == (
            Ok::<(), HaltView>(()),
            m.with_value(ValueView::Float(x@)),
        ),
        *element matches RST::Fragment(text) ==> step_element(m, element) == (
            Ok::<(), HaltView>(()),
            m.with_top(
                FrameView {
                    output: match m.top().output {
                        Some(output) => Some(output.push(PieceView::Fragment(text@))),
                        None => None,
                    },
                    ..m.top()
                },
            ),
        ),
        *element matches RST::Whitespace(text) ==> step_element(m, element) == (
            Ok::<(), HaltView>(()),
            m.with_top(
                FrameView {
                    output: match m.top().output {
                        Some(output) => Some(output.push(PieceView::Whitespace(text@))),
                        None => None,
                    },
                    ..m.top()
                },
            ),
        ),
        *element matches RST::Closure(closure) && closure.params == params && closure.expr == body
            ==> step_element(m, element) == (
            Ok::<(), HaltView>(()),
            m.with_value(ValueView::Function(func)),
        ),
{
    reveal(step_element);
}

/// What a value adds to the output of a frame is a piece of that value; an empty value adds
/// nothing, and nothing is added to a frame without output.
pub proof fn values_are_printed_once(m: Machine, value: ValueView)
    requires
        m.stack.frames.len() > 0,
    ensures
        value is Empty ==> m.with_value(value) == m,
        m.top().output is None ==> m.with_value(value) == m,
        !(value is Empty) && m.top().output is Some ==> m.with_value(value).top() == (FrameView {
            output: Some(m.top().output->Some_0.push(PieceView::Value(value))),
            ..m.top()
        }),
        m.with_value(value).stack.frames.drop_last() == m.stack.frames.drop_last(),
        m.with_value(value).vals == m.vals,
        m.with_value(value).engine == m.engine,
{
    assert(m.with_value(value).stack.frames.drop_last() =~= m.stack.frames.drop_last());
    if value is Empty || m.top().output is None {
        assert(m.with_value(value).top() =~= m.top());
        assert(m.with_value(value).stack.frames =~= m.stack.frames);
    }
}

// Output.

/// The text of output is the texts of its pieces, one after the other.
pub proof fn output_joins_its_pieces(a: Seq<PieceView>, b: Seq<PieceView>)
    ensures
        joined(a + b) == joined(a) + joined(b),
        a.len() == 1 ==> joined(a) == a[0].text(),
        a.len() == 0 ==> joined(a) == Seq::<char>::empty(),
    decreases b.len(),
{
    reveal_with_fuel(joined, 2);
    if b.len() == 0 {
        assert(a + b =~= a);
        assert(joined(a) + joined(b) =~= joined(a));
    } else {
        assert((a + b).drop_last() =~= a + b.drop_last());
        output_joins_its_pieces(a, b.drop_last());
        assert(joined(a + b) =~= joined(a) + joined(b));
    }
    if a.len() == 1 {
        assert(a.drop_last() =~= Seq::empty());
        assert(joined(a) =~= a[0].text());
    }
}

/// A piece that is a value is, alone, that value. Nothing is the empty value. Anything else is the
/// text of the pieces.
pub proof fn output_is_a_value(pieces: Seq<PieceView>)
    ensures
        pieces.len() == 0 ==> rendered(pieces) is Empty,
        pieces.len() == 1 && pieces[0] is Value ==> rendered(pieces) == pieces[0]->Value_0,
        pieces.len() > 1 ==> rendered(pieces) == ValueView::Text(joined(pieces)),
        pieces.len() == 1 && !(pieces[0] is Value) ==> rendered(pieces) == ValueView::Text(
            pieces[0].text(),
        ),
        rendered(pieces).text() == joined(pieces),
{
    output_joins_its_pieces(pieces, Seq::empty());
}

} // verus!

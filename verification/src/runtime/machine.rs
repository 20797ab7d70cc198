//! What the virtual machine does.
//!
//! A machine runs in steps. Each step handles one intent of the top frame or, if there is none, one
//! element of its sequence. The functions here say what each of them changes.

use std::rc::Rc;
use vstd::prelude::*;
use crate::collections::{empty_map, MapView, RantListRef, RantMapRef};
use crate::compiler::lang::{AccessPathKind, Parameter, PrintFlag};
use crate::engine::EngineView;
use crate::runtime::error::{bare_error, ErrorTypeView, ErrorView};
use crate::runtime::frame::{fresh_frame, FrameView};
use crate::runtime::intent::{IntentView, SourceView};
use crate::runtime::output::{rendered, PieceView};
use crate::runtime::program::{
    expressions, prevailing, required_count, variadic_start, Block, MapKeyExpr, Sequence,
    VarAccessComponent, VarAccessPath, RST,
};
use crate::runtime::stack::{not_found_text, StackView};
use crate::text::decimal;
use crate::value::{RantFunction, RantFunctionInterface, ValueView};

verus! {

pub const MAX_STACK_SIZE: usize = 20000;

/// The state of a virtual machine.
#[verifier::ext_equal]
pub struct Machine {
    pub stack: StackView,
    /// Values that frames leave for each other, the topmost last.
    pub vals: Seq<ValueView>,
    pub engine: EngineView,
    /// Random numbers to be used, the next one first.
    pub draws: Seq<u64>,
}

/// Why a machine cannot go on.
pub enum HaltView {
    Error(ErrorView),
    /// A random number is needed, and there is none.
    NeedsDraw,
    /// The program asks for something that makes no sense.
    Stuck,
}

/// What became of a step.
pub enum ProgressView {
    /// The machine can go on.
    Running,
    /// The program has ended with this output.
    Finished(Seq<char>),
    /// An error occurred.
    Failed(ErrorView),
    /// The host is to run one of its functions, and the machine can go on after that.
    NativeCall { func: Rc<RantFunction>, args: Seq<ValueView> },
    /// The host is to do something, and the machine can go on after that.
    HostCall(usize),
    /// The host is to provide a random number, and the machine can go on after that.
    NeedsDraw,
    /// The program asks for something that makes no sense.
    Stuck,
}

/// An error with a description.
pub open spec fn described(error_type: ErrorTypeView, description: Seq<char>) -> HaltView {
    HaltView::Error(ErrorView { error_type, description: Some(description) })
}

impl Machine {
    pub open spec fn wf(self) -> bool {
        self.stack.wf()
    }

    /// The top frame.
    pub open spec fn top(self) -> FrameView {
        self.stack.frames.last()
    }

    /// With another top frame.
    pub open spec fn with_top(self, frame: FrameView) -> Machine {
        Machine { stack: self.stack.with_top(frame), ..self }
    }

    /// With an intent that the top frame handles next.
    pub open spec fn with_intent(self, intent: IntentView) -> Machine {
        self.with_top(self.top().with_intent(intent))
    }

    /// With a value printed by the top frame.
    pub open spec fn with_value(self, value: ValueView) -> Machine {
        self.with_top(self.top().with_value(value))
    }
}

// Stacks.

/// Leaves a value on the value stack, and gives the new height of the stack.
pub open spec fn push_val(m: Machine, value: ValueView) -> (Result<nat, HaltView>, Machine) {
    if m.vals.len() < MAX_STACK_SIZE {
        (Ok(m.vals.len() + 1), Machine { vals: m.vals.push(value), ..m })
    } else {
        (Err(described(ErrorTypeView::StackOverflow, "value stack has overflowed"@)), m)
    }
}

/// Leaves a value on the value stack.
pub open spec fn leave_val(m: Machine, value: ValueView) -> (Result<(), HaltView>, Machine) {
    let (result, m1) = push_val(m, value);
    (
        match result {
            Ok(_) => Ok(()),
            Err(halt) => Err(halt),
        },
        m1,
    )
}

pub open spec fn val_underflow() -> HaltView {
    described(ErrorTypeView::StackUnderflow, "value stack has underflowed"@)
}

pub open spec fn pop_val(m: Machine) -> (Result<ValueView, HaltView>, Machine) {
    if m.vals.len() > 0 {
        (Ok(m.vals.last()), Machine { vals: m.vals.drop_last(), ..m })
    } else {
        (Err(val_underflow()), m)
    }
}

/// Pops `count` values, the topmost first. If there are not enough, none is left.
pub open spec fn pop_vals(m: Machine, count: nat) -> (Result<Seq<ValueView>, HaltView>, Machine) {
    if count <= m.vals.len() {
        (
            Ok(Seq::new(count, |i: int| m.vals[m.vals.len() - 1 - i])),
            Machine { vals: m.vals.take(m.vals.len() - count), ..m },
        )
    } else {
        (Err(val_underflow()), Machine { vals: Seq::empty(), ..m })
    }
}

/// The argument for parameter `i`.
pub open spec fn arg(args: Seq<ValueView>, i: int) -> ValueView {
    if i < args.len() {
        args[i]
    } else {
        ValueView::Empty
    }
}

/// With the parameters defined in the top frame.
pub open spec fn with_args(
    stack: StackView,
    params: Seq<Parameter>,
    args: Seq<ValueView>,
) -> StackView
    decreases params.len(),
{
    if params.len() == 0 {
        stack
    } else {
        with_args(stack, params.drop_last(), args).defined(
            params.last().name@,
            AccessPathKind::Local,
            arg(args, params.len() - 1),
        )
    }
}

/// Pushes a frame for a sequence, with arguments as its local variables.
pub open spec fn push_frame(
    m: Machine,
    callee: Rc<Sequence>,
    use_output: bool,
    params: Seq<Parameter>,
    args: Seq<ValueView>,
) -> (Result<(), HaltView>, Machine) {
    if m.stack.frames.len() >= MAX_STACK_SIZE {
        (Err(described(ErrorTypeView::StackOverflow, "call stack has overflowed"@)), m)
    } else {
        (
            Ok(()),
            Machine {
                stack: with_args(m.stack.pushed(fresh_frame(callee, use_output)), params, args),
                ..m
            },
        )
    }
}

/// Pushes a frame that evaluates an expression.
pub open spec fn push_expr(m: Machine, expr: Rc<Sequence>) -> (Result<(), HaltView>, Machine) {
    push_frame(m, expr, true, Seq::empty(), Seq::empty())
}

/// The element of a block that the next random number picks.
pub open spec fn pick(m: Machine, block: Rc<Block>) -> int {
    m.draws[0] as int % block.elements@.len() as int
}

/// Pushes a frame for a random element of a block. What the element prints, the frame below is to
/// print, unless that is overridden.
pub open spec fn push_block_frame(
    m: Machine,
    block: Rc<Block>,
    override_print: bool,
    params: Seq<Parameter>,
    args: Seq<ValueView>,
    flag: PrintFlag,
) -> (Result<(), HaltView>, Machine) {
    if block.elements@.len() == 0 {
        (Err(HaltView::Stuck), m)
    } else if m.draws.len() == 0 {
        (Err(HaltView::NeedsDraw), m)
    } else {
        let elem = block.elements@[pick(m, block)];
        let is_printing = prevailing(block.flag, flag) != PrintFlag::Sink;
        let m1 = Machine { draws: m.draws.drop_first(), ..m };
        let m2 = if is_printing && !override_print {
            m1.with_intent(IntentView::PrintLastOutput)
        } else {
            m1
        };
        push_frame(m2, elem, is_printing, params, args)
    }
}

/// Pushes a frame that evaluates a block.
pub open spec fn push_block_expr(m: Machine, block: Rc<Block>) -> (Result<(), HaltView>, Machine) {
    push_block_frame(m, block, true, Seq::empty(), Seq::empty(), PrintFlag::Plain)
}

// Variables.

pub open spec fn get_local(m: Machine, id: Seq<char>) -> Result<ValueView, HaltView> {
    match m.stack.lookup(m.engine.globals, id, AccessPathKind::Local, false) {
        Some(value) => Ok(value),
        None => Err(described(ErrorTypeView::InvalidAccess, not_found_text(id))),
    }
}

pub open spec fn set_local(m: Machine, id: Seq<char>, value: ValueView) -> (
    Result<(), HaltView>,
    Machine,
) {
    (
        if m.stack.can_assign(m.engine.globals, id, AccessPathKind::Local) {
            Ok(())
        } else {
            Err(described(ErrorTypeView::InvalidAccess, not_found_text(id)))
        },
        Machine {
            stack: m.stack.assigned(id, AccessPathKind::Local, value),
            engine: m.stack.assigned_global(m.engine, id, AccessPathKind::Local, value),
            ..m
        },
    )
}

pub open spec fn def_local(m: Machine, id: Seq<char>, value: ValueView) -> Machine {
    Machine { stack: m.stack.defined(id, AccessPathKind::Local, value), ..m }
}

/// What says where in a value to read or write.
pub enum SelectorView {
    Index(i64),
    Key(Seq<char>),
}

/// The selector that a step of a path stands for: `keys` are the values of the expressions in the
/// path, of which `used` belong to steps before.
pub open spec fn selector(
    part: VarAccessComponent,
    keys: Seq<ValueView>,
    used: nat,
) -> Result<SelectorView, HaltView> {
    match part {
        VarAccessComponent::Name(name) => Ok(SelectorView::Key(name@)),
        VarAccessComponent::Index(index) => Ok(SelectorView::Index(index)),
        VarAccessComponent::Expression(_) => if used < keys.len() {
            match keys[used as int] {
                ValueView::Integer(index) => Ok(SelectorView::Index(index)),
                key => Ok(SelectorView::Key(key.text())),
            }
        } else {
            Err(HaltView::Stuck)
        },
    }
}

/// The variable that the first step of a path names.
pub open spec fn root_name(path: VarAccessPath, keys: Seq<ValueView>) -> Result<
    Seq<char>,
    HaltView,
> {
    if path.parts@.len() == 0 {
        Err(HaltView::Stuck)
    } else {
        match path.parts@[0] {
            VarAccessComponent::Name(name) => Ok(name@),
            VarAccessComponent::Index(_) => Err(HaltView::Stuck),
            VarAccessComponent::Expression(_) => if keys.len() > 0 {
                Ok(keys[0].text())
            } else {
                Err(HaltView::Stuck)
            },
        }
    }
}

/// How many of the first `i` steps of a path are expressions.
pub open spec fn keys_before(path: VarAccessPath, i: int) -> nat {
    expressions(path.parts@.take(i)).len()
}

/// What is in a value at a selector.
pub open spec fn select(engine: EngineView, value: ValueView, selector: SelectorView) -> Result<
    ValueView,
    HaltView,
> {
    match selector {
        SelectorView::Index(index) => match engine.at_index(value, index) {
            Ok(item) => Ok(item),
            Err(error) => Err(HaltView::Error(bare_error(ErrorTypeView::IndexError(error)))),
        },
        SelectorView::Key(key) => match engine.at_key(value, key) {
            Ok(item) => Ok(item),
            Err(error) => Err(HaltView::Error(bare_error(ErrorTypeView::KeyError(error)))),
        },
    }
}

/// What the first `count` steps of a path lead to.
pub open spec fn follow(
    m: Machine,
    path: VarAccessPath,
    keys: Seq<ValueView>,
    count: int,
) -> Result<ValueView, HaltView>
    decreases count,
{
    if count <= 1 {
        match root_name(path, keys) {
            Ok(name) => get_local(m, name),
            Err(halt) => Err(halt),
        }
    } else {
        match follow(m, path, keys, count - 1) {
            Err(halt) => Err(halt),
            Ok(value) => match selector(
                path.parts@[count - 1],
                keys,
                keys_before(path, count - 1),
            ) {
                Ok(selector) => select(m.engine, value, selector),
                Err(halt) => Err(halt),
            },
        }
    }
}

/// Reads what a path leads to, and prints it or leaves it on the value stack.
pub open spec fn get_value(
    m: Machine,
    path: VarAccessPath,
    dynamic_key_count: nat,
    override_print: bool,
) -> (Result<(), HaltView>, Machine) {
    let (keys, m1) = pop_vals(m, dynamic_key_count);
    match keys {
        Err(halt) => (Err(halt), m1),
        Ok(keys) => match follow(m1, path, keys, path.parts@.len() as int) {
            Err(halt) => (Err(halt), m1),
            Ok(value) => if override_print {
                leave_val(m1, value)
            } else {
                (Ok(()), m1.with_value(value))
            },
        },
    }
}

/// Writes to the place that a path leads to.
pub open spec fn write_to(
    m: Machine,
    path: VarAccessPath,
    auto_def: bool,
    keys: Seq<ValueView>,
    value: ValueView,
) -> (Result<(), HaltView>, Machine) {
    let len = path.parts@.len();
    if len <= 1 {
        // The place is a variable
        match root_name(path, keys) {
            Err(halt) => (Err(halt), m),
            Ok(name) => if auto_def {
                (Ok(()), def_local(m, name, value))
            } else {
                set_local(m, name, value)
            },
        }
    } else {
        // The place is inside what all steps but the last lead to
        match follow(m, path, keys, len - 1) {
            Err(halt) => (Err(halt), m),
            Ok(target) => match selector(path.parts@[len - 1], keys, keys_before(path, len - 1)) {
                Err(halt) => (Err(halt), m),
                Ok(SelectorView::Index(index)) => {
                    let (result, engine) = m.engine.with_index(target, index, value);
                    (
                        match result {
                            Ok(_) => Ok(()),
                            Err(error) => Err(
                                HaltView::Error(bare_error(ErrorTypeView::IndexError(error))),
                            ),
                        },
                        Machine { engine, ..m },
                    )
                },
                Ok(SelectorView::Key(key)) => {
                    let (result, engine) = m.engine.with_key(target, key, value);
                    (
                        match result {
                            Ok(_) => Ok(()),
                            Err(error) => Err(
                                HaltView::Error(bare_error(ErrorTypeView::KeyError(error))),
                            ),
                        },
                        Machine { engine, ..m },
                    )
                },
            },
        }
    }
}

/// Takes a value off the value stack, then the dynamic keys below it, that of the last expression
/// in the path on top, and writes the value.
pub open spec fn set_value(
    m: Machine,
    path: VarAccessPath,
    auto_def: bool,
    dynamic_key_count: nat,
) -> (Result<(), HaltView>, Machine) {
    let (value, m1) = pop_val(m);
    match value {
        Err(halt) => (Err(halt), m1),
        Ok(value) => {
            let (keys, m2) = pop_vals(m1, dynamic_key_count);
            match keys {
                Err(halt) => (Err(halt), m2),
                Ok(keys) => write_to(m2, path, auto_def, keys.reverse(), value),
            }
        },
    }
}

// Steps.

/// What a step amounts to that goes on unless there is an error.
pub open spec fn settled(outcome: (Result<(), HaltView>, Machine)) -> (ProgressView, Machine) {
    (
        match outcome.0 {
            Ok(_) => ProgressView::Running,
            Err(HaltView::Error(error)) => ProgressView::Failed(error),
            Err(HaltView::NeedsDraw) => ProgressView::NeedsDraw,
            Err(HaltView::Stuck) => ProgressView::Stuck,
        },
        outcome.1,
    )
}

/// Does one step. A step that cannot be done for want of a random number changes nothing.
pub open spec fn step(m: Machine) -> (ProgressView, Machine) {
    if m.stack.frames.len() == 0 {
        // The program is done, and the last frame left its output
        let (value, m1) = pop_val(m);
        (
            ProgressView::Finished(
                match value {
                    Ok(value) => value.text(),
                    Err(_) => Seq::empty(),
                },
            ),
            m1,
        )
    } else {
        let (progress, m1) = act(m);
        if progress is NeedsDraw {
            (progress, m)
        } else {
            (progress, m1)
        }
    }
}

/// Handles the next intent of the top frame or, if there is none, runs the next element of its
/// sequence or, if there is none, pops it.
pub open spec fn act(m: Machine) -> (ProgressView, Machine) {
    if m.top().intents.len() > 0 {
        step_intent(
            m.with_top(FrameView { intents: m.top().intents.drop_first(), ..m.top() }),
            m.top().intents[0],
        )
    } else {
        let (element, frame) = m.top().advanced();
        match element {
            Some(element) => settled(step_element(m.with_top(frame), element)),
            None => settled(finish_frame(m)),
        }
    }
}

/// Pops the top frame and leaves its output on the value stack.
pub open spec fn finish_frame(m: Machine) -> (Result<(), HaltView>, Machine) {
    let m1 = Machine { stack: m.stack.popped(), ..m };
    match m.top().output {
        Some(pieces) => leave_val(m1, rendered(pieces)),
        None => (Ok(()), m1),
    }
}

/// Handles an intent that was taken from the top frame.
#[verifier::opaque]
pub open spec fn step_intent(m: Machine, intent: IntentView) -> (ProgressView, Machine) {
    match intent {
        IntentView::PrintLastOutput => {
            let (value, m1) = pop_val(m);
            settled(
                match value {
                    Ok(value) => (Ok(()), m1.with_value(value)),
                    Err(halt) => (Err(halt), m1),
                },
            )
        },
        IntentView::SetVar { vname } => {
            let (value, m1) = pop_val(m);
            settled(
                match value {
                    Ok(value) => set_local(m1, vname, value),
                    Err(halt) => (Err(halt), m1),
                },
            )
        },
        IntentView::DefVar { vname } => {
            let (value, m1) = pop_val(m);
            settled(
                match value {
                    Ok(value) => (Ok(()), def_local(m1, vname, value)),
                    Err(halt) => (Err(halt), m1),
                },
            )
        },
        IntentView::BuildDynamicGetter {
            path,
            dynamic_key_count,
            pending_exprs,
            override_print,
        } => settled(
            build_dynamic_getter(m, path, dynamic_key_count, pending_exprs, override_print),
        ),
        IntentView::GetValue { path, dynamic_key_count, override_print } => settled(
            get_value(m, *path, dynamic_key_count, override_print),
        ),
        IntentView::BuildDynamicSetter {
            path,
            auto_def,
            expr_count,
            pending_exprs,
            val_source,
        } => settled(
            build_dynamic_setter(m, path, auto_def, expr_count, pending_exprs, val_source),
        ),
        IntentView::SetValue { path, auto_def, expr_count } => settled(
            set_value(m, *path, auto_def, expr_count),
        ),
        IntentView::Invoke { arg_exprs, eval_count, flag } => invoke(m, arg_exprs, eval_count, flag),
        IntentView::BuildList { init, index, list } => settled(build_list(m, init, index, list)),
        IntentView::BuildMap { init, pair_index, map } => settled(
            build_map(m, init, pair_index, map),
        ),
        IntentView::RuntimeCall(call) => (ProgressView::HostCall(call), m),
    }
}

pub open spec fn build_dynamic_getter(
    m: Machine,
    path: Rc<VarAccessPath>,
    dynamic_key_count: nat,
    pending_exprs: Seq<Rc<Block>>,
    override_print: bool,
) -> (Result<(), HaltView>, Machine) {
    let get = IntentView::GetValue { path, dynamic_key_count, override_print };
    if pending_exprs.len() == 0 {
        (Ok(()), m.with_intent(get))
    } else {
        let rest = pending_exprs.drop_last();
        let next = if rest.len() == 0 {
            get
        } else {
            IntentView::BuildDynamicGetter {
                path,
                dynamic_key_count,
                pending_exprs: rest,
                override_print,
            }
        };
        push_block_expr(m.with_intent(next), pending_exprs.last())
    }
}

/// Provides the value that a setter writes.
pub open spec fn provide(m: Machine, source: SourceView) -> (Result<(), HaltView>, Machine) {
    match source {
        SourceView::FromExpression(expr) => push_expr(m, expr),
        SourceView::FromValue(value) => leave_val(m, value),
    }
}

/// Evaluates the next dynamic key of a setter, or provides the value once every key is there.
pub open spec fn build_dynamic_setter(
    m: Machine,
    path: Rc<VarAccessPath>,
    auto_def: bool,
    expr_count: nat,
    pending_exprs: Seq<Rc<Block>>,
    val_source: SourceView,
) -> (Result<(), HaltView>, Machine) {
    if pending_exprs.len() == 0 {
        // Every key is there, so the value comes next
        provide(m.with_intent(IntentView::SetValue { path, auto_def, expr_count }), val_source)
    } else {
        push_block_expr(
            m.with_intent(
                IntentView::BuildDynamicSetter {
                    path,
                    auto_def,
                    expr_count,
                    pending_exprs: pending_exprs.drop_last(),
                    val_source,
                },
            ),
            pending_exprs.last(),
        )
    }
}

/// The description of an error about the number of arguments.
pub open spec fn mismatch_text(expected: Seq<char>, min: nat, found: nat) -> Seq<char> {
    "arguments don't match; expected "@ + expected + decimal(min) + ", found "@ + decimal(found)
}

/// The arguments as the function takes them, or why it does not. The arguments for the variadic
/// parameter of a function of the program become one list.
pub open spec fn fit_args(m: Machine, func: Rc<RantFunction>, args: Seq<ValueView>) -> (
    Result<Seq<ValueView>, HaltView>,
    Machine,
) {
    let argc = args.len();
    let min = func.min_arg_count as nat;
    if func.spec_is_variadic() {
        if argc < min {
            (
                Err(
                    described(
                        ErrorTypeView::ArgumentMismatch,
                        mismatch_text("at least "@, min, argc),
                    ),
                ),
                m,
            )
        } else if func.body is Foreign {
            (Ok(args), m)
        } else if func.vararg_start_index > argc {
            (Err(HaltView::Stuck), m)
        } else {
            let start = func.vararg_start_index as int;
            let list = RantListRef { id: m.engine.lists.len() as usize };
            (
                Ok(args.take(start).push(ValueView::List(list))),
                Machine {
                    engine: EngineView {
                        lists: m.engine.lists.push(args.skip(start)),
                        ..m.engine
                    },
                    ..m
                },
            )
        }
    } else if argc < min || argc > func.params@.len() {
        (
            Err(
                described(
                    ErrorTypeView::ArgumentMismatch,
                    mismatch_text(Seq::empty(), min, argc),
                ),
            ),
            m,
        )
    } else {
        (Ok(args), m)
    }
}

/// Calls a function.
pub open spec fn call(
    m: Machine,
    func: Rc<RantFunction>,
    args: Seq<ValueView>,
    flag: PrintFlag,
) -> (ProgressView, Machine) {
    let (fitted, m1) = fit_args(m, func, args);
    match fitted {
        Err(halt) => settled((Err(halt), m1)),
        Ok(args) => match func.body {
            RantFunctionInterface::Foreign(_) => (ProgressView::NativeCall { func, args }, m1),
            RantFunctionInterface::User(block) => settled(
                push_block_frame(m1, block, false, func.params@, args, flag),
            ),
        },
    }
}

pub open spec fn invoke(
    m: Machine,
    arg_exprs: Rc<Vec<Rc<Sequence>>>,
    eval_count: nat,
    flag: PrintFlag,
) -> (ProgressView, Machine) {
    let argc = arg_exprs@.len();
    if eval_count < argc {
        // First, evaluate all arguments in order
        settled(
            push_expr(
                m.with_intent(
                    IntentView::Invoke {
                        arg_exprs,
                        eval_count: eval_count + 1,
                        flag,
                    },
                ),
                arg_exprs@[eval_count as int],
            ),
        )
    } else {
        let (args, m1) = pop_vals(m, argc);
        match args {
            Err(halt) => settled((Err(halt), m1)),
            Ok(args) => {
                let (callee, m2) = pop_val(m1);
                match callee {
                    Err(halt) => settled((Err(halt), m2)),
                    // The last argument was on top
                    Ok(ValueView::Function(func)) => call(m2, func, args.reverse(), flag),
                    Ok(other) => settled(
                        (
                            Err(
                                described(
                                    ErrorTypeView::CannotInvokeValue,
                                    "cannot invoke '"@ + other.type_text() + "' value"@,
                                ),
                            ),
                            m2,
                        ),
                    ),
                }
            },
        }
    }
}

pub open spec fn build_list(
    m: Machine,
    init: Rc<Vec<Rc<Sequence>>>,
    index: nat,
    list: Seq<ValueView>,
) -> (Result<(), HaltView>, Machine) {
    // Add latest evaluated value to list
    let (result, m1) = if index > 0 {
        let (value, m1) = pop_val(m);
        match value {
            Ok(value) => (Ok(list.push(value)), m1),
            Err(halt) => (Err(halt), m1),
        }
    } else {
        (Ok(list), m)
    };
    match result {
        Err(halt) => (Err(halt), m1),
        Ok(list) => if index >= init@.len() {
            // The list is complete
            let made = RantListRef { id: m1.engine.lists.len() as usize };
            (
                Ok(()),
                Machine {
                    engine: EngineView { lists: m1.engine.lists.push(list), ..m1.engine },
                    ..m1
                }.with_value(ValueView::List(made)),
            )
        } else {
            push_expr(
                m1.with_intent(IntentView::BuildList { init, index: index + 1, list }),
                init@[index as int],
            )
        },
    }
}

/// The key of the pair that was evaluated last: it lies on the value stack if it is dynamic.
pub open spec fn last_key(m: Machine, key: MapKeyExpr) -> (Result<Seq<char>, HaltView>, Machine) {
    match key {
        MapKeyExpr::Dynamic(_) => {
            let (value, m1) = pop_val(m);
            (
                match value {
                    Ok(value) => Ok(value.text()),
                    Err(halt) => Err(halt),
                },
                m1,
            )
        },
        MapKeyExpr::Static(key) => (Ok(key@), m),
    }
}

/// The map with the pair that was evaluated last, if any.
pub open spec fn with_last_pair(
    m: Machine,
    init: Rc<Vec<(MapKeyExpr, Rc<Sequence>)>>,
    pair_index: nat,
    map: MapView,
) -> (Result<MapView, HaltView>, Machine) {
    if pair_index == 0 {
        (Ok(map), m)
    } else if pair_index > init@.len() {
        (Err(HaltView::Stuck), m)
    } else {
        let (key, m1) = last_key(m, init@[pair_index - 1].0);
        match key {
            Err(halt) => (Err(halt), m1),
            Ok(key) => {
                let (value, m2) = pop_val(m1);
                (
                    match value {
                        Ok(value) => Ok(
                            MapView { entries: map.entries.insert(key, value), ..map },
                        ),
                        Err(halt) => Err(halt),
                    },
                    m2,
                )
            },
        }
    }
}

pub open spec fn build_map(
    m: Machine,
    init: Rc<Vec<(MapKeyExpr, Rc<Sequence>)>>,
    pair_index: nat,
    map: MapView,
) -> (Result<(), HaltView>, Machine) {
    let (result, m1) = with_last_pair(m, init, pair_index, map);
    match result {
        Err(halt) => (Err(halt), m1),
        Ok(map) => if pair_index >= init@.len() {
            // The map is complete
            let made = RantMapRef { id: m1.engine.maps.len() as usize };
            (
                Ok(()),
                Machine {
                    engine: EngineView { maps: m1.engine.maps.push(map), ..m1.engine },
                    ..m1
                }.with_value(ValueView::MapRef(made)),
            )
        } else {
            let (key, expr) = init@[pair_index as int];
            let m2 = m1.with_intent(
                IntentView::BuildMap { init, pair_index: pair_index + 1, map },
            );
            // A dynamic key is evaluated after the value
            let (result, m3) = match key {
                MapKeyExpr::Dynamic(block) => push_block_expr(m2, block),
                MapKeyExpr::Static(_) => (Ok(()), m2),
            };
            match result {
                Err(halt) => (Err(halt), m3),
                Ok(_) => push_expr(m3, expr),
            }
        },
    }
}

/// The intent to read what a path leads to.
pub open spec fn getter(path: Rc<VarAccessPath>, override_print: bool) -> IntentView {
    let keys = expressions(path.parts@);
    if keys.len() == 0 {
        // Getter is static, so run it directly
        IntentView::GetValue { path, dynamic_key_count: 0, override_print }
    } else {
        // Build dynamic keys before running getter
        IntentView::BuildDynamicGetter {
            path,
            dynamic_key_count: keys.len(),
            pending_exprs: keys,
            override_print,
        }
    }
}

/// A function of the program.
pub open spec fn user_function(params: Rc<Vec<Parameter>>, body: Rc<Block>) -> Rc<RantFunction> {
    Rc::new(
        RantFunction {
            body: RantFunctionInterface::User(body),
            params,
            min_arg_count: required_count(params@) as usize,
            vararg_start_index: variadic_start(params@) as usize,
        },
    )
}

/// Runs an element of the sequence of the top frame.
#[verifier::opaque]
pub open spec fn step_element(m: Machine, element: Rc<RST>) -> (Result<(), HaltView>, Machine) {
    match *element {
        RST::Fragment(frag) => (
            Ok(()),
            m.with_top(m.top().written(PieceView::Fragment(frag@))),
        ),
        RST::Whitespace(ws) => (
            Ok(()),
            m.with_top(m.top().written(PieceView::Whitespace(ws@))),
        ),
        RST::Integer(n) => (Ok(()), m.with_value(ValueView::Integer(n))),
        RST::Float(n) => (Ok(()), m.with_value(ValueView::Float(n@))),
        RST::Boolean(b) => (Ok(()), m.with_value(ValueView::Boolean(b))),
        RST::EmptyVal => (Ok(()), m.with_value(ValueView::Empty)),
        RST::ListInit(init) => (
            Ok(()),
            m.with_intent(IntentView::BuildList { init, index: 0, list: Seq::empty() }),
        ),
        RST::MapInit(init) => (
            Ok(()),
            m.with_intent(IntentView::BuildMap { init, pair_index: 0, map: empty_map() }),
        ),
        RST::Block(block) => push_block_frame(
            m,
            block,
            false,
            Seq::empty(),
            Seq::empty(),
            PrintFlag::Plain,
        ),
        RST::VarDef(vname, value) => match value {
            // If a value is present, it needs to be evaluated first
            Some(expr) => push_expr(m.with_intent(IntentView::DefVar { vname: vname@ }), expr),
            None => (Ok(()), def_local(m, vname@, ValueView::Empty)),
        },
        RST::VarGet(path) => (Ok(()), m.with_intent(getter(path, false))),
        RST::VarSet(path, expr) => {
            let keys = expressions(path.parts@);
            if keys.len() == 0 {
                // Setter is static, so run it directly
                push_expr(
                    m.with_intent(
                        IntentView::SetValue { path, auto_def: false, expr_count: 0 },
                    ),
                    expr,
                )
            } else {
                // Build dynamic keys before running setter, the first one first
                (
                    Ok(()),
                    m.with_intent(
                        IntentView::BuildDynamicSetter {
                            path,
                            auto_def: false,
                            expr_count: keys.len(),
                            pending_exprs: keys.reverse(),
                            val_source: SourceView::FromExpression(expr),
                        },
                    ),
                )
            }
        },
        RST::FuncDef(def) => {
            let keys = expressions(def.id.parts@);
            (
                Ok(()),
                m.with_intent(
                    IntentView::BuildDynamicSetter {
                        path: def.id,
                        auto_def: true,
                        expr_count: keys.len(),
                        pending_exprs: keys.reverse(),
                        val_source: SourceView::FromValue(
                            ValueView::Function(user_function(def.params, def.body)),
                        ),
                    },
                ),
            )
        },
        RST::Closure(closure) => (
            Ok(()),
            m.with_value(ValueView::Function(user_function(closure.params, closure.expr))),
        ),
        RST::AnonFuncCall(call) => push_expr(
            // Evaluate arguments after function is evaluated
            m.with_intent(
                IntentView::Invoke { arg_exprs: call.args, eval_count: 0, flag: call.flag },
            ),
            call.expr,
        ),
        RST::FuncCall(call) => {
            // Run the getter to retrieve the function first, and queue up the call
            let m1 = m.with_intent(getter(call.id, true));
            (
                Ok(()),
                m1.with_top(
                    FrameView {
                        intents: m1.top().intents.push(
                            IntentView::Invoke {
                                arg_exprs: call.arguments,
                                eval_count: 0,
                                flag: call.flag,
                            },
                        ),
                        ..m1.top()
                    },
                ),
            )
        },
    }
}

/// Does up to `count` steps, as long as the machine can go on.
pub open spec fn steps(m: Machine, count: nat) -> (ProgressView, Machine)
    decreases count,
{
    if count == 0 {
        (ProgressView::Running, m)
    } else {
        let (progress, m1) = step(m);
        if progress is Running {
            steps(m1, (count - 1) as nat)
        } else {
            (progress, m1)
        }
    }
}

} // verus!

//! The virtual machine: its state and the operations that steps are made of.

use std::rc::Rc;
use vstd::prelude::*;
use crate::collections::{RantList, RantListRef, RantMap, RantMapRef};
use crate::compiler::lang::{AccessPathKind, Parameter, PrintFlag};
use crate::engine::{EngineView, Rant};
use crate::rng::RantRng;
use crate::runtime::error::{
    RantError, RuntimeErrorType, ValueIndexResult, ValueIndexSetResult, ValueKeyResult,
    ValueKeySetResult,
};
use crate::runtime::frame::StackFrame;
use crate::runtime::intent::Intent;
use crate::runtime::locals::lemma_holder;
use crate::runtime::machine::{
    arg, def_local, described, finish_frame, get_local, pop_val, pop_vals, push_block_expr,
    push_block_frame, push_expr, push_frame, push_val, set_local, with_args, HaltView, Machine,
    ProgressView, MAX_STACK_SIZE,
};
use crate::runtime::program::{Block, RantProgram, Sequence};
use crate::runtime::stack::{empty_stack, CallStack};
use crate::value::{value_views, RantFunction, RantValue, ValueView};

verus! {

/// Why a machine cannot go on.
#[derive(Debug)]
pub enum Halt {
    Error(RantError),
    /// A random number is needed, and there is none.
    NeedsDraw,
    /// The program asks for something that makes no sense.
    Stuck,
}

impl View for Halt {
    type V = HaltView;

    open spec fn view(&self) -> HaltView {
        match self {
            Halt::Error(error) => HaltView::Error(error@),
            Halt::NeedsDraw => HaltView::NeedsDraw,
            Halt::Stuck => HaltView::Stuck,
        }
    }
}

pub open spec fn unit_result(result: Result<(), Halt>) -> Result<(), HaltView> {
    match result {
        Ok(_) => Ok(()),
        Err(halt) => Err(halt@),
    }
}

pub open spec fn height_result(result: Result<usize, Halt>) -> Result<nat, HaltView> {
    match result {
        Ok(height) => Ok(height as nat),
        Err(halt) => Err(halt@),
    }
}

pub open spec fn value_result(result: Result<RantValue, Halt>) -> Result<ValueView, HaltView> {
    match result {
        Ok(value) => Ok(value@),
        Err(halt) => Err(halt@),
    }
}

pub open spec fn values_result(result: Result<Vec<RantValue>, Halt>) -> Result<
    Seq<ValueView>,
    HaltView,
> {
    match result {
        Ok(values) => Ok(value_views(values@)),
        Err(halt) => Err(halt@),
    }
}

/// What became of a step, or of a run.
#[derive(Debug)]
pub enum Progress {
    /// The machine can go on.
    Running,
    /// The program has ended with this output.
    Finished(String),
    /// An error occurred.
    Failed(RantError),
    /// The host is to run one of its functions, and the machine can go on after that.
    NativeCall { func: Rc<RantFunction>, args: Vec<RantValue> },
    /// The host is to do something, and the machine can go on after that.
    HostCall(usize),
    /// The host is to provide a random number, and the machine can go on after that.
    NeedsDraw,
    /// The program asks for something that makes no sense.
    Stuck,
}

impl View for Progress {
    type V = ProgressView;

    open spec fn view(&self) -> ProgressView {
        match self {
            Progress::Running => ProgressView::Running,
            Progress::Finished(text) => ProgressView::Finished(text@),
            Progress::Failed(error) => ProgressView::Failed(error@),
            Progress::NativeCall { func, args } => ProgressView::NativeCall {
                func: *func,
                args: value_views(args@),
            },
            Progress::HostCall(call) => ProgressView::HostCall(*call),
            Progress::NeedsDraw => ProgressView::NeedsDraw,
            Progress::Stuck => ProgressView::Stuck,
        }
    }
}

/// Runs programs.
pub struct VM {
    rng: RantRng,
    engine: Rant,
    program: RantProgram,
    val_stack: Vec<RantValue>,
    call_stack: CallStack,
}

fn error(error_type: RuntimeErrorType, description: &str) -> (halt: Halt)
    ensures
        halt@ == described(error_type@, description@),
{
    Halt::Error(
        RantError::RuntimeError { error_type, description: Some(description.to_owned()) },
    )
}

impl VM {
    /// The state of the machine.
    pub closed spec fn machine(&self) -> Machine {
        Machine {
            stack: self.call_stack@,
            vals: value_views(self.val_stack@),
            engine: self.engine@,
            draws: self.rng@,
        }
    }

    /// What the machine runs.
    pub closed spec fn root(&self) -> Rc<Sequence> {
        self.program.root
    }

    /// Each frame has a layer of local variables.
    pub open spec fn wf(&self) -> bool {
        self.machine().wf()
    }

    /// `self` is `before` in another state.
    pub open spec fn continues(&self, before: &VM) -> bool {
        self.wf() && self.root() == before.root()
    }

    pub fn new(rng: RantRng, engine: Rant, program: RantProgram) -> (vm: Self)
        ensures
            vm.wf(),
            vm.root() == program.root,
            vm.machine() == (Machine {
                stack: empty_stack(),
                vals: Seq::empty(),
                engine: engine@,
                draws: rng@,
            }),
    {
        let vm = VM {
            rng,
            engine,
            program,
            val_stack: Vec::new(),
            call_stack: CallStack::new(),
        };
        assert(vm.machine().vals =~= Seq::empty());
        vm
    }

    /// The engine, once the machine is no longer needed.
    pub fn into_engine(self) -> (engine: Rant)
        ensures
            engine@ == self.machine().engine,
    {
        self.engine
    }

    pub fn rng(&self) -> (rng: &RantRng)
        ensures
            rng@ == self.machine().draws,
    {
        &self.rng
    }

    /// Provides a random number.
    pub fn feed(&mut self, draw: u64)
        requires
            old(self).wf(),
        ensures
            final(self).continues(old(self)),
            final(self).machine() == (Machine {
                draws: old(self).machine().draws.push(draw),
                ..old(self).machine()
            }),
    {
        self.rng.feed(draw);
    }

    /// What the machine runs.
    pub(crate) fn root_sequence(&self) -> (root: Rc<Sequence>)
        ensures
            root == self.root(),
    {
        Rc::clone(&self.program.root)
    }

    pub fn is_stack_empty(&self) -> (empty: bool)
        ensures
            empty == (self.machine().stack.frames.len() == 0),
    {
        self.call_stack.is_empty()
    }

    /// The current frame, to be changed.
    pub fn cur_frame_mut(&mut self) -> (frame: &mut StackFrame)
        requires
            old(self).wf(),
            old(self).machine().stack.frames.len() > 0,
        ensures
            frame@ == old(self).machine().top(),
            final(self).continues(old(self)),
            final(self).machine() == old(self).machine().with_top(final(frame)@),
    {
        match self.call_stack.top_mut() {
            Some(frame) => frame,
            None => {
                assert(false);
                unreached()
            },
        }
    }

    /// The current frame.
    pub fn cur_frame(&self) -> (frame: &StackFrame)
        requires
            self.machine().stack.frames.len() > 0,
        ensures
            frame@ == self.machine().top(),
    {
        match self.call_stack.top() {
            Some(frame) => frame,
            None => {
                assert(false);
                unreached()
            },
        }
    }

    /// Leaves a value on the value stack, and gives the new height of the stack.
    pub(crate) fn push_val(&mut self, val: RantValue) -> (result: Result<usize, Halt>)
        requires
            old(self).wf(),
        ensures
            final(self).continues(old(self)),
            (height_result(result), final(self).machine()) == push_val(old(self).machine(), val@),
    {
        if self.val_stack.len() < MAX_STACK_SIZE {
            self.val_stack.push(val);
            assert(self.machine().vals =~= old(self).machine().vals.push(val@));
            Ok(self.val_stack.len())
        } else {
            Err(error(RuntimeErrorType::StackOverflow, "value stack has overflowed"))
        }
    }

    /// Takes a value off the value stack.
    pub(crate) fn pop_val(&mut self) -> (result: Result<RantValue, Halt>)
        requires
            old(self).wf(),
        ensures
            final(self).continues(old(self)),
            (value_result(result), final(self).machine()) == pop_val(old(self).machine()),
    {
        match self.val_stack.pop() {
            Some(val) => {
                assert(self.machine().vals =~= old(self).machine().vals.drop_last());
                Ok(val)
            },
            None => Err(error(RuntimeErrorType::StackUnderflow, "value stack has underflowed")),
        }
    }

    /// The value `depth` below the topmost one on the value stack.
    pub(crate) fn peek_val(&self, depth: usize) -> (value: Option<&RantValue>)
        ensures
            match value {
                Some(value) => {
                    &&& depth < self.machine().vals.len()
                    &&& value@ == self.machine().vals[self.machine().vals.len() - 1 - depth]
                },
                None => depth >= self.machine().vals.len(),
            },
    {
        let len: usize = self.val_stack.len();
        if depth < len {
            Some(&self.val_stack[len - 1 - depth])
        } else {
            None
        }
    }

    /// Takes `count` values off the value stack, the topmost first.
    pub(crate) fn pop_vals(&mut self, count: usize) -> (result: Result<Vec<RantValue>, Halt>)
        requires
            old(self).wf(),
        ensures
            final(self).continues(old(self)),
            (values_result(result), final(self).machine()) == pop_vals(
                old(self).machine(),
                count as nat,
            ),
    {
        let mut values: Vec<RantValue> = Vec::new();
        let ghost vals = self.machine().vals;
        let mut i: usize = 0;
        assert(vals.take(vals.len() as int) =~= vals);
        while i < count
            invariant
                i <= count,
                i <= vals.len(),
                self.continues(old(self)),
                vals == old(self).machine().vals,
                self.machine() == (Machine {
                    vals: vals.take(vals.len() - i),
                    ..old(self).machine()
                }),
                values@.len() == i,
                forall|j: int| 0 <= j < i ==> (#[trigger] values@[j])@ == vals[vals.len() - 1 - j],
            decreases count - i,
        {
            match self.pop_val() {
                Ok(val) => {
                    assert(vals.take(vals.len() - i).drop_last() =~= vals.take(
                        vals.len() - (i + 1),
                    ));
                    values.push(val);
                },
                Err(halt) => {
                    assert(self.machine() =~= pop_vals(old(self).machine(), count as nat).1);
                    return Err(halt);
                },
            }
            i = i + 1;
        }
        assert(value_views(values@) =~= Seq::new(
            count as nat,
            |j: int| vals[vals.len() - 1 - j],
        ));
        Ok(values)
    }

    /// Pops the current frame and leaves its output on the value stack.
    pub(crate) fn finish_frame(&mut self) -> (result: Result<(), Halt>)
        requires
            old(self).wf(),
            old(self).machine().stack.frames.len() > 0,
        ensures
            final(self).continues(old(self)),
            (unit_result(result), final(self).machine()) == finish_frame(old(self).machine()),
    {
        match self.call_stack.pop_frame() {
            Some(frame) => {
                let mut last_frame = frame;
                match last_frame.render_output_value() {
                    Some(output) => {
                        self.push_val(output)?;
                        Ok(())
                    },
                    None => Ok(()),
                }
            },
            None => Err(error(RuntimeErrorType::StackUnderflow, "call stack has underflowed")),
        }
    }

    /// Pushes a frame for a sequence, with arguments as its local variables.
    pub(crate) fn push_frame(
        &mut self,
        callee: Rc<Sequence>,
        use_output: bool,
        params: &Vec<Parameter>,
        args: &Vec<RantValue>,
    ) -> (result: Result<(), Halt>)
        requires
            old(self).wf(),
        ensures
            final(self).continues(old(self)),
            (unit_result(result), final(self).machine()) == push_frame(
                old(self).machine(),
                callee,
                use_output,
                params@,
                value_views(args@),
            ),
    {
        // Check if this push would overflow the stack
        if self.call_stack.len() >= MAX_STACK_SIZE {
            return Err(error(RuntimeErrorType::StackOverflow, "call stack has overflowed"));
        }
        self.call_stack.push_frame(StackFrame::new(callee, use_output, None));
        let ghost base = self.machine().stack;
        let ghost views = value_views(args@);
        assert(params@.take(0) =~= Seq::empty());
        let mut i: usize = 0;
        while i < params.len()
            invariant
                i <= params@.len(),
                views == value_views(args@),
                self.continues(old(self)),
                self.machine() == (Machine {
                    stack: with_args(base, params@.take(i as int), views),
                    ..old(self).machine()
                }),
            decreases params@.len() - i,
        {
            let value = if i < args.len() {
                args[i].clone()
            } else {
                RantValue::Empty
            };
            proof {
                assert(value@ == arg(views, i as int));
                assert(params@.take(i + 1).drop_last() =~= params@.take(i as int));
            }
            self.def_local(params[i].name.as_str(), value);
            i = i + 1;
        }
        assert(params@.take(i as int) =~= params@);
        Ok(())
    }

    /// Pushes a frame that evaluates an expression.
    pub(crate) fn push_expr(&mut self, expr: Rc<Sequence>) -> (result: Result<(), Halt>)
        requires
            old(self).wf(),
        ensures
            final(self).continues(old(self)),
            (unit_result(result), final(self).machine()) == push_expr(old(self).machine(), expr),
    {
        let args: Vec<RantValue> = Vec::new();
        assert(value_views(args@) =~= Seq::empty());
        self.push_frame(expr, true, &Vec::new(), &args)
    }

    /// Pushes a frame for a random element of a block.
    pub(crate) fn push_block_frame(
        &mut self,
        block: &Rc<Block>,
        override_print: bool,
        params: &Vec<Parameter>,
        args: &Vec<RantValue>,
        flag: PrintFlag,
    ) -> (result: Result<(), Halt>)
        requires
            old(self).wf(),
            old(self).machine().stack.frames.len() > 0,
        ensures
            final(self).continues(old(self)),
            (unit_result(result), final(self).machine()) == push_block_frame(
                old(self).machine(),
                *block,
                override_print,
                params@,
                value_views(args@),
                flag,
            ),
    {
        if block.elements.len() == 0 {
            return Err(Halt::Stuck);
        }
        if self.rng.is_empty() {
            return Err(Halt::NeedsDraw);
        }
        let index = self.rng.next_usize(block.elements.len());
        let elem = Rc::clone(&block.elements[index]);
        let is_printing = !PrintFlag::prioritize(block.flag, flag).is_sink();
        if is_printing && !override_print {
            self.push_intent_front(Intent::PrintLastOutput);
        }
        self.push_frame(elem, is_printing, params, args)
    }

    /// Pushes a frame that evaluates a block.
    pub(crate) fn push_block_expr(&mut self, block: &Rc<Block>) -> (result: Result<(), Halt>)
        requires
            old(self).wf(),
            old(self).machine().stack.frames.len() > 0,
        ensures
            final(self).continues(old(self)),
            (unit_result(result), final(self).machine()) == push_block_expr(
                old(self).machine(),
                *block,
            ),
    {
        let args: Vec<RantValue> = Vec::new();
        assert(value_views(args@) =~= Seq::empty());
        self.push_block_frame(block, true, &Vec::new(), &args, PrintFlag::Plain)
    }

    /// Assigns to a variable.
    pub(crate) fn set_local(&mut self, key: &str, val: RantValue) -> (result: Result<(), Halt>)
        requires
            old(self).wf(),
        ensures
            final(self).continues(old(self)),
            (unit_result(result), final(self).machine()) == set_local(
                old(self).machine(),
                key@,
                val@,
            ),
    {
        proof {
            lemma_holder(self.machine().stack.layers, key@);
        }
        match self.call_stack.set_var_value(&mut self.engine, key, AccessPathKind::Local, val) {
            Ok(_) => Ok(()),
            Err(error) => Err(Halt::Error(error.into_rant_error())),
        }
    }

    /// The value of a variable.
    pub(crate) fn get_local(&self, key: &str) -> (result: Result<RantValue, Halt>)
        ensures
            value_result(result) == get_local(self.machine(), key@),
    {
        match self.call_stack.get_var_value(&self.engine, key, AccessPathKind::Local, false) {
            Ok(value) => Ok(value),
            Err(error) => Err(Halt::Error(error.into_rant_error())),
        }
    }

    /// Defines a variable in the current frame.
    pub(crate) fn def_local(&mut self, key: &str, val: RantValue)
        requires
            old(self).wf(),
        ensures
            final(self).continues(old(self)),
            final(self).machine() == def_local(old(self).machine(), key@, val@),
    {
        let _ = self.call_stack.def_var_value(&mut self.engine, key, AccessPathKind::Local, val);
    }

    /// Has the current frame handle an intent next.
    pub(crate) fn push_intent_front(&mut self, intent: Intent)
        requires
            old(self).wf(),
            old(self).machine().stack.frames.len() > 0,
        ensures
            final(self).continues(old(self)),
            final(self).machine() == old(self).machine().with_intent(intent@),
    {
        self.cur_frame_mut().push_intent_front(intent);
    }

    /// Prints a value.
    pub(crate) fn write_value(&mut self, val: RantValue)
        requires
            old(self).wf(),
            old(self).machine().stack.frames.len() > 0,
        ensures
            final(self).continues(old(self)),
            final(self).machine() == old(self).machine().with_value(val@),
    {
        self.cur_frame_mut().write_value(val);
    }

    /// Whether there are random numbers.
    pub(crate) fn has_draw(&self) -> (has: bool)
        ensures
            has == (self.machine().draws.len() > 0),
    {
        !self.rng.is_empty()
    }

    /// Keeps a list.
    pub(crate) fn add_list(&mut self, list: RantList) -> (value: RantValue)
        requires
            old(self).wf(),
        ensures
            final(self).continues(old(self)),
            value@ == ValueView::List(
                RantListRef { id: old(self).machine().engine.lists.len() as usize },
            ),
            final(self).machine() == (Machine {
                engine: EngineView {
                    lists: old(self).machine().engine.lists.push(list@),
                    ..old(self).machine().engine
                },
                ..old(self).machine()
            }),
    {
        self.engine.add_list(list)
    }

    /// Keeps a map.
    pub(crate) fn add_map(&mut self, map: RantMap) -> (value: RantValue)
        requires
            old(self).wf(),
        ensures
            final(self).continues(old(self)),
            value@ == ValueView::MapRef(
                RantMapRef { id: old(self).machine().engine.maps.len() as usize },
            ),
            final(self).machine() == (Machine {
                engine: EngineView {
                    maps: old(self).machine().engine.maps.push(map@),
                    ..old(self).machine().engine
                },
                ..old(self).machine()
            }),
    {
        self.engine.add_map(map)
    }

    pub(crate) fn get_by_index(&self, value: &RantValue, index: i64) -> (result: ValueIndexResult)
        ensures
            match (result, self.machine().engine.at_index(value@, index)) {
                (Ok(item), Ok(view)) => item@ == view,
                (Err(err), Err(view)) => err@ == view,
                _ => false,
            },
    {
        self.engine.get_by_index(value, index)
    }

    pub(crate) fn get_by_key(&self, value: &RantValue, key: &str) -> (result: ValueKeyResult)
        ensures
            match (result, self.machine().engine.at_key(value@, key@)) {
                (Ok(item), Ok(view)) => item@ == view,
                (Err(err), Err(view)) => err@ == view,
                _ => false,
            },
    {
        self.engine.get_by_key(value, key)
    }

    pub(crate) fn set_by_index(
        &mut self,
        value: &RantValue,
        index: i64,
        item: RantValue,
    ) -> (result: ValueIndexSetResult)
        requires
            old(self).wf(),
        ensures
            final(self).continues(old(self)),
            final(self).machine() == (Machine {
                engine: old(self).machine().engine.with_index(value@, index, item@).1,
                ..old(self).machine()
            }),
            match (result, old(self).machine().engine.with_index(value@, index, item@).0) {
                (Ok(_), Ok(_)) => true,
                (Err(err), Err(view)) => err@ == view,
                _ => false,
            },
    {
        self.engine.set_by_index(value, index, item)
    }

    pub(crate) fn set_by_key(&mut self, value: &RantValue, key: &str, item: RantValue) -> (result:
        ValueKeySetResult)
        requires
            old(self).wf(),
        ensures
            final(self).continues(old(self)),
            final(self).machine() == (Machine {
                engine: old(self).machine().engine.with_key(value@, key@, item@).1,
                ..old(self).machine()
            }),
            match (result, old(self).machine().engine.with_key(value@, key@, item@).0) {
                (Ok(_), Ok(_)) => true,
                (Err(err), Err(view)) => err@ == view,
                _ => false,
            },
    {
        self.engine.set_by_key(value, key, item)
    }
}

} // verus!

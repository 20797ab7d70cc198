//! Stack frames.

use std::collections::VecDeque;
use std::rc::Rc;
use vstd::prelude::*;
use crate::compiler::lang::{DebugInfo, RantProgramInfo};
use crate::runtime::intent::{Intent, IntentView};
use crate::runtime::output::{rendered, OutputBuffer, OutputWriter, PieceView};
use crate::runtime::program::{Sequence, RST};
use crate::text::{decimal, opt_text, push_decimal};
use crate::value::{RantValue, ValueView};

verus! {

/// Hints at what kind of program element a specific stack frame represents.
///
/// The runtime can use this information to find where to unwind the call stack to on specific
/// operations like breaking, returning, etc.
///
/// Flavors are listed from the weakest to the strongest.
#[derive(Debug, Copy, Clone, PartialEq, Eq, PartialOrd, Structural)]
pub enum StackFrameFlavor {
    /// Nothing special.
    Original,
    /// Native function call.
    NativeCall,
    /// Frame is used for a block element.
    BlockElement,
    /// Frame is used for a repeater element.
    RepeaterElement,
    /// Frame is used for the body of a function.
    FunctionBody,
    /// Frame is used to evaluate a dynamic key.
    DynamicKeyExpression,
    /// Frame is used to evaluate a function argument.
    ArgumentExpression,
}

impl Default for StackFrameFlavor {
    fn default() -> (flavor: Self)
        ensures
            flavor == StackFrameFlavor::Original,
    {
        StackFrameFlavor::Original
    }
}

impl StackFrameFlavor {
    /// How strong the flavor is.
    pub open spec fn strength(self) -> nat {
        match self {
            StackFrameFlavor::Original => 0,
            StackFrameFlavor::NativeCall => 1,
            StackFrameFlavor::BlockElement => 2,
            StackFrameFlavor::RepeaterElement => 3,
            StackFrameFlavor::FunctionBody => 4,
            StackFrameFlavor::DynamicKeyExpression => 5,
            StackFrameFlavor::ArgumentExpression => 6,
        }
    }

    fn rank(self) -> (rank: u8)
        ensures
            rank == self.strength(),
    {
        match self {
            StackFrameFlavor::Original => 0,
            StackFrameFlavor::NativeCall => 1,
            StackFrameFlavor::BlockElement => 2,
            StackFrameFlavor::RepeaterElement => 3,
            StackFrameFlavor::FunctionBody => 4,
            StackFrameFlavor::DynamicKeyExpression => 5,
            StackFrameFlavor::ArgumentExpression => 6,
        }
    }

    /// Whether the flavor is stronger than another.
    pub fn is_stronger_than(self, other: StackFrameFlavor) -> (stronger: bool)
        ensures
            stronger == (self.strength() > other.strength()),
    {
        self.rank() > other.rank()
    }
}

/// Represents a call stack frame.
#[derive(Debug)]
pub struct StackFrame {
    /// Node sequence being executed by the frame
    sequence: Option<Rc<Sequence>>,
    /// Program Counter (as index in sequence) for the current frame
    pc: usize,
    /// Has frame sequence started running?
    started: bool,
    /// Output for the frame
    output: Option<OutputWriter>,
    /// Intent queue for the frame
    intents: VecDeque<Intent>,
    /// Line/col for debug info
    debug_pos: (usize, usize),
    /// Origin of sequence
    origin: Rc<RantProgramInfo>,
    /// A usage hint provided by the program element that created the frame.
    flavor: StackFrameFlavor,
}

/// The view of a [`StackFrame`].
#[verifier::ext_equal]
pub struct FrameView {
    pub sequence: Option<Rc<Sequence>>,
    pub pc: nat,
    pub started: bool,
    pub output: Option<Seq<PieceView>>,
    pub intents: Seq<IntentView>,
    pub debug_pos: (usize, usize),
    pub origin: Rc<RantProgramInfo>,
    pub flavor: StackFrameFlavor,
}

pub open spec fn intent_views(intents: Seq<Intent>) -> Seq<IntentView> {
    intents.map_values(|intent: Intent| intent@)
}

impl View for StackFrame {
    type V = FrameView;

    closed spec fn view(&self) -> FrameView {
        FrameView {
            sequence: self.sequence,
            pc: self.pc as nat,
            started: self.started,
            output: match self.output {
                Some(output) => Some(output@),
                None => None,
            },
            intents: intent_views(self.intents@),
            debug_pos: self.debug_pos,
            origin: self.origin,
            flavor: self.flavor,
        }
    }
}

/// Output that nothing has been written to, if there is to be any.
pub open spec fn fresh_output(has_output: bool) -> Option<Seq<PieceView>> {
    if has_output {
        Some(Seq::empty())
    } else {
        None
    }
}

/// A frame that is to run a sequence.
pub open spec fn fresh_frame(sequence: Rc<Sequence>, has_output: bool) -> FrameView {
    FrameView {
        sequence: Some(sequence),
        pc: 0,
        started: false,
        output: fresh_output(has_output),
        intents: Seq::empty(),
        debug_pos: (0usize, 0usize),
        origin: sequence.origin,
        flavor: StackFrameFlavor::Original,
    }
}

/// The name of where a program element comes from: its path, else its name. What has neither is
/// called `program`, which is this crate's own choice.
pub open spec fn origin_label(origin: RantProgramInfo) -> Seq<char> {
    match opt_text(origin.path) {
        Some(path) => path,
        None => match opt_text(origin.name) {
            Some(name) => name,
            None => "program"@,
        },
    }
}

impl FrameView {
    /// Whether the sequence has been run to its end.
    pub open spec fn done(self) -> bool {
        match self.sequence {
            Some(sequence) => self.pc >= sequence.elements@.len(),
            None => true,
        }
    }

    /// The element that comes next, and the frame once it is running.
    pub open spec fn advanced(self) -> (Option<Rc<RST>>, FrameView) {
        if self.done() {
            (None, self)
        } else {
            let next = FrameView {
                pc: if self.started {
                    self.pc + 1
                } else {
                    self.pc
                },
                started: true,
                ..self
            };
            (
                match self.sequence {
                    Some(sequence) => if next.pc < sequence.elements@.len() {
                        Some(sequence.elements@[next.pc as int])
                    } else {
                        None
                    },
                    None => None,
                },
                next,
            )
        }
    }

    /// The frame with a piece of output added, if it has output.
    pub open spec fn written(self, piece: PieceView) -> FrameView {
        FrameView {
            output: match self.output {
                Some(output) => Some(output.push(piece)),
                None => None,
            },
            ..self
        }
    }

    /// The frame with a value printed. Empty values print nothing.
    pub open spec fn with_value(self, value: ValueView) -> FrameView {
        if value is Empty {
            self
        } else {
            self.written(PieceView::Value(value))
        }
    }

    /// The frame with an intent that is handled next.
    pub open spec fn with_intent(self, intent: IntentView) -> FrameView {
        FrameView { intents: seq![intent] + self.intents, ..self }
    }

    /// What the frame runs, in stack traces.
    pub open spec fn activity(self) -> Seq<char> {
        let name = match self.sequence {
            Some(sequence) => opt_text(sequence.name),
            None => None,
        };
        match name {
            Some(name) => name,
            None => if self.flavor == StackFrameFlavor::NativeCall {
                "native call"@
            } else {
                "?"@
            },
        }
    }

    /// The frame in a stack trace.
    pub open spec fn text(self) -> Seq<char> {
        seq!['['] + origin_label(*self.origin) + seq![':'] + decimal(self.debug_pos.0 as nat)
            + seq![':'] + decimal(self.debug_pos.1 as nat) + "] in "@ + self.activity()
    }
}

impl StackFrame {
    /// What collects the output of the frame.
    pub closed spec fn writer(&self) -> Option<OutputWriter> {
        self.output
    }

    pub fn new(
        sequence: Rc<Sequence>,
        has_output: bool,
        prev_output: Option<&OutputWriter>,
    ) -> (frame: Self)
        ensures
            frame@ == fresh_frame(sequence, has_output),
    {
        let frame = StackFrame {
            origin: Rc::clone(&sequence.origin),
            sequence: Some(sequence),
            output: if has_output {
                Some(OutputWriter::new(prev_output))
            } else {
                None
            },
            started: false,
            pc: 0,
            intents: VecDeque::new(),
            debug_pos: (0, 0),
            flavor: StackFrameFlavor::Original,
        };
        assert(frame@ =~= fresh_frame(sequence, has_output));
        frame
    }

    /// A frame without a sequence, which has the host do something.
    pub fn new_empty(
        call: usize,
        has_output: bool,
        prev_output: Option<&OutputWriter>,
        origin: Rc<RantProgramInfo>,
        debug_pos: (usize, usize),
        flavor: StackFrameFlavor,
    ) -> (frame: Self)
        ensures
            frame@ == (FrameView {
                sequence: None,
                pc: 0,
                started: false,
                output: fresh_output(has_output),
                intents: seq![IntentView::RuntimeCall(call)],
                debug_pos,
                origin,
                flavor,
            }),
    {
        let mut intents: VecDeque<Intent> = VecDeque::new();
        intents.push_front(Intent::RuntimeCall(call));
        let frame = StackFrame {
            origin,
            sequence: None,
            output: if has_output {
                Some(OutputWriter::new(prev_output))
            } else {
                None
            },
            started: false,
            pc: 0,
            intents,
            debug_pos,
            flavor,
        };
        assert(frame@.intents =~= seq![IntentView::RuntimeCall(call)]);
        frame
    }

    /// The same frame with another flavor.
    pub fn with_flavor(self, flavor: StackFrameFlavor) -> (frame: Self)
        ensures
            frame@ == (FrameView { flavor, ..self@ }),
    {
        let mut frame = self;
        frame.flavor = flavor;
        frame
    }

    fn is_done(&self) -> (done: bool)
        ensures
            done == self@.done(),
            !done ==> self@.pc < usize::MAX,
    {
        match &self.sequence {
            Some(sequence) => self.pc >= sequence.elements.len(),
            None => true,
        }
    }

    /// Goes on to the next element of the sequence.
    pub fn seq_next(&mut self) -> (element: Option<Rc<RST>>)
        ensures
            (element, final(self)@) == old(self)@.advanced(),
    {
        if self.is_done() {
            return None;
        }
        // Increment PC
        if self.started {
            self.pc = self.pc + 1;
        } else {
            self.started = true;
        }
        match &self.sequence {
            Some(sequence) => if self.pc < sequence.elements.len() {
                Some(Rc::clone(&sequence.elements[self.pc]))
            } else {
                None
            },
            None => None,
        }
    }

    /// The element that comes next, which stays to be run.
    pub fn peek_element(&self) -> (element: Option<Rc<RST>>)
        ensures
            element == self@.advanced().0,
    {
        if self.is_done() {
            return None;
        }
        let next: usize = if self.started {
            self.pc + 1
        } else {
            self.pc
        };
        match &self.sequence {
            Some(sequence) => if next < sequence.elements.len() {
                Some(Rc::clone(&sequence.elements[next]))
            } else {
                None
            },
            None => None,
        }
    }

    /// The next intent to be handled, which stays in the queue.
    pub fn peek_intent(&self) -> (intent: Option<&Intent>)
        ensures
            match intent {
                Some(intent) => self@.intents.len() > 0 && intent@ == self@.intents[0],
                None => self@.intents.len() == 0,
            },
    {
        if self.intents.len() > 0 {
            Some(&self.intents[0])
        } else {
            None
        }
    }

    /// Gets the Program Counter (PC) for the frame.
    pub fn pc(&self) -> (pc: usize)
        ensures
            pc == self@.pc,
    {
        self.pc
    }

    /// Gets the flavor of the frame.
    pub fn flavor(&self) -> (flavor: StackFrameFlavor)
        ensures
            flavor == self@.flavor,
    {
        self.flavor
    }

    pub fn output(&self) -> (output: Option<&OutputWriter>)
        ensures
            match (output, self@.output) {
                (Some(output), Some(pieces)) => output@ == pieces,
                (None, None) => true,
                _ => false,
            },
    {
        match &self.output {
            Some(output) => Some(output),
            None => None,
        }
    }

    pub fn origin(&self) -> (origin: &Rc<RantProgramInfo>)
        ensures
            *origin == self@.origin,
    {
        &self.origin
    }

    pub fn debug_pos(&self) -> (pos: (usize, usize))
        ensures
            pos == self@.debug_pos,
    {
        self.debug_pos
    }

    /// The name of where the sequence comes from: its path, else its name, else `program`.
    pub fn origin_name(&self) -> (name: &str)
        ensures
            name@ == origin_label(*self@.origin),
    {
        match &self.origin.path {
            Some(path) => path.as_str(),
            None => match &self.origin.name {
                Some(name) => name.as_str(),
                None => "program",
            },
        }
    }

    /// Takes the next intent to be handled.
    pub fn take_intent(&mut self) -> (intent: Option<Intent>)
        ensures
            match intent {
                Some(intent) => {
                    &&& old(self)@.intents.len() > 0
                    &&& intent@ == old(self)@.intents[0]
                    &&& final(self)@ == (FrameView {
                        intents: old(self)@.intents.drop_first(),
                        ..old(self)@
                    })
                },
                None => old(self)@.intents.len() == 0 && final(self)@ == old(self)@,
            },
    {
        let intent = self.intents.pop_front();
        proof {
            if intent is Some {
                assert(self@.intents =~= old(self)@.intents.drop_first());
            }
        }
        intent
    }

    /// Pushes an intent to the front of the queue so that it is handled next.
    pub fn push_intent_front(&mut self, intent: Intent)
        ensures
            final(self)@ == old(self)@.with_intent(intent@),
    {
        self.intents.push_front(intent);
        assert(self@.intents =~= seq![intent@] + old(self)@.intents);
    }

    /// Pushes an intent to the back of the queue so that it is handled last.
    pub fn push_intent_back(&mut self, intent: Intent)
        ensures
            final(self)@ == (FrameView {
                intents: old(self)@.intents.push(intent@),
                ..old(self)@
            }),
    {
        self.intents.push_back(intent);
        assert(self@.intents =~= old(self)@.intents.push(intent@));
    }

    /// Passes the output to a function, if there is any.
    pub fn use_output<'a, F: FnOnce(&'a OutputWriter) -> R, R>(&'a self, func: F) -> (result: Option<
        R,
    >)
        requires
            self.writer() matches Some(output) ==> call_requires(func, (&output,)),
        ensures
            match (self.writer(), result) {
                (Some(output), Some(value)) => {
                    &&& self@.output == Some(output@)
                    &&& call_ensures(func, (&output,), value)
                },
                (None, None) => self@.output is None,
                _ => false,
            },
    {
        match &self.output {
            Some(output) => Some(func(output)),
            None => None,
        }
    }

    /// Passes the output to a function that may write to it, if there is any.
    pub fn use_output_mut<F: FnOnce(&mut OutputWriter)>(&mut self, func: F)
        requires
            forall|output: &mut OutputWriter|
                old(self)@.output == Some(output@) ==> #[trigger] call_requires(func, (output,)),
        ensures
            match old(self)@.output {
                Some(pieces) => exists|output: &mut OutputWriter|
                    pieces == output@ && #[trigger] call_ensures(func, (output,), ()) 
                        && final(self)@ == (FrameView { output: Some(final(output)@), ..old(self)@ }),
                None => final(self)@ == old(self)@,
            },
    {
        if let Some(output) = self.output.as_mut() {
            func(output);
        }
    }

    /// Writes debug information to the current frame to be used in stack trace generation.
    pub fn set_debug_info(&mut self, info: &DebugInfo)
        ensures
            final(self)@ == (FrameView {
                debug_pos: match *info {
                    DebugInfo::Location { line, col } => (line, col),
                },
                ..old(self)@
            }),
    {
        match info {
            DebugInfo::Location { line, col } => {
                self.debug_pos = (*line, *col);
            },
        }
    }

    /// Prints text.
    pub fn write_frag(&mut self, frag: &str)
        ensures
            final(self)@ == old(self)@.written(PieceView::Fragment(frag@)),
    {
        if let Some(output) = self.output.as_mut() {
            output.write_frag(frag);
        }
    }

    /// Prints whitespace.
    pub fn write_ws(&mut self, ws: &str)
        ensures
            final(self)@ == old(self)@.written(PieceView::Whitespace(ws@)),
    {
        if let Some(output) = self.output.as_mut() {
            output.write_ws(ws);
        }
    }

    /// Prints a value, unless it is empty.
    pub fn write_value(&mut self, val: RantValue)
        ensures
            final(self)@ == old(self)@.with_value(val@),
    {
        if val.is_empty() {
            return ;
        }
        if let Some(output) = self.output.as_mut() {
            output.write_buffer(OutputBuffer::Value(val));
        }
    }

    /// Takes the output away and gives the value that it makes up.
    pub fn render_output_value(&mut self) -> (value: Option<RantValue>)
        ensures
            final(self)@ == (FrameView { output: None, ..old(self)@ }),
            match (value, old(self)@.output) {
                (Some(value), Some(pieces)) => value@ == rendered(pieces),
                (None, None) => true,
                _ => false,
            },
    {
        match self.output.take() {
            Some(output) => Some(output.render_value()),
            None => None,
        }
    }

    fn activity(&self) -> (name: &str)
        ensures
            name@ == self@.activity(),
    {
        if let Some(sequence) = &self.sequence {
            if let Some(name) = &sequence.name {
                return name.as_str();
            }
        }
        match self.flavor {
            StackFrameFlavor::NativeCall => "native call",
            _ => "?",
        }
    }

    /// The frame in a stack trace.
    pub fn to_text(&self) -> (text: String)
        ensures
            text@ == self@.text(),
    {
        let mut text = String::new();
        text.push('[');
        text.append(self.origin_name());
        text.push(':');
        push_decimal(&mut text, self.debug_pos.0 as u64);
        text.push(':');
        push_decimal(&mut text, self.debug_pos.1 as u64);
        text.append("] in ");
        text.append(self.activity());
        assert(text@ =~= self@.text());
        text
    }
}

} // verus!

//! The call stack.

use fnv::FnvBuildHasher;
use quickscope::ScopeMap;
use vstd::prelude::*;
use crate::compiler::lang::AccessPathKind;
use crate::compiler::scopes::layer_below;
use crate::engine::{EngineView, Rant};
use crate::runtime::error::{RuntimeError, RuntimeErrorType, RuntimeResult};
use crate::runtime::frame::{FrameView, StackFrame, StackFrameFlavor};
use crate::runtime::locals::{
    define_local, define_parent_local, get_all_locals, get_local, get_local_mut, get_parent_local,
    get_parent_local_mut, get_parent_locals, holder, known_names, lemma_holder, local_layers,
    new_locals, pile, pop_locals, push_locals, var_views, with_local, with_local_below, without_top,
};
use crate::text::{decimal, push_decimal};
use crate::value::{RantValue, RantVar, ValueView};

verus! {

/// Represents a call stack and its associated locals.
pub struct CallStack {
    frames: Vec<StackFrame>,
    locals: ScopeMap<String, RantVar, FnvBuildHasher>,
}

/// The view of a [`CallStack`].
#[verifier::ext_equal]
pub struct StackView {
    /// The frames, the bottom one first.
    pub frames: Seq<FrameView>,
    /// The local variables, in one layer for each frame on top of one that no frame has.
    pub layers: Seq<Map<Seq<char>, ValueView>>,
    /// The names that a local variable was ever defined under.
    pub known: Set<Seq<char>>,
}

pub open spec fn frame_views(frames: Seq<StackFrame>) -> Seq<FrameView> {
    frames.map_values(|frame: StackFrame| frame@)
}

impl View for CallStack {
    type V = StackView;

    closed spec fn view(&self) -> StackView {
        StackView {
            frames: frame_views(self.frames@),
            layers: local_layers(self.locals),
            known: known_names(self.locals),
        }
    }
}

/// A stack without frames.
pub open spec fn empty_stack() -> StackView {
    StackView {
        frames: Seq::empty(),
        layers: seq![Map::empty()],
        known: Set::empty(),
    }
}

impl StackView {
    /// Each frame has a layer of local variables.
    pub open spec fn wf(self) -> bool {
        self.layers.len() == self.frames.len() + 1
    }

    /// With a frame on top.
    pub open spec fn pushed(self, frame: FrameView) -> StackView {
        StackView {
            frames: self.frames.push(frame),
            layers: self.layers.push(Map::empty()),
            ..self
        }
    }

    /// Without the top frame.
    pub open spec fn popped(self) -> StackView {
        StackView {
            frames: self.frames.drop_last(),
            layers: self.layers.drop_last(),
            ..self
        }
    }

    /// With another top frame.
    pub open spec fn with_top(self, frame: FrameView) -> StackView {
        StackView { frames: self.frames.drop_last().push(frame), ..self }
    }

    /// The layers in which an access looks for local variables.
    pub open spec fn in_reach(self, access: AccessPathKind) -> Seq<Map<Seq<char>, ValueView>> {
        match access {
            AccessPathKind::Local => self.layers,
            AccessPathKind::Descope(n) => without_top(self.layers, n as nat),
            AccessPathKind::ExplicitGlobal => Seq::empty(),
        }
    }

    /// Whether an access to a function finds its name known, but no variable of that name.
    pub open spec fn dangling(self, id: Seq<char>, access: AccessPathKind) -> bool {
        &&& !(access is ExplicitGlobal)
        &&& self.known.contains(id)
        &&& pile(self.in_reach(access), id).len() == 0
    }

    /// The value of a variable; none if there is no such variable.
    ///
    /// If a function is preferred and the local variable found is not callable, lower variables of
    /// the same name and then the global one are tried for a function.
    pub open spec fn lookup(
        self,
        globals: Map<Seq<char>, ValueView>,
        id: Seq<char>,
        access: AccessPathKind,
        prefer_function: bool,
    ) -> Option<ValueView> {
        let values = pile(self.in_reach(access), id);
        if values.len() == 0 {
            if globals.dom().contains(id) {
                Some(globals[id])
            } else {
                None
            }
        } else if prefer_function && !(values[0] is Function) {
            match first_function(values) {
                Some(func) => Some(func),
                None => if globals.dom().contains(id) && globals[id] is Function {
                    Some(globals[id])
                } else {
                    Some(values[0])
                },
            }
        } else {
            Some(values[0])
        }
    }

    /// Whether assigning to a variable finds it.
    pub open spec fn can_assign(
        self,
        globals: Map<Seq<char>, ValueView>,
        id: Seq<char>,
        access: AccessPathKind,
    ) -> bool {
        holder(self.in_reach(access), id) is Some || globals.dom().contains(id)
    }

    /// The locals after assigning to a variable.
    pub open spec fn assigned(
        self,
        id: Seq<char>,
        access: AccessPathKind,
        value: ValueView,
    ) -> StackView {
        match holder(self.in_reach(access), id) {
            Some(i) => StackView { layers: with_local(self.layers, i, id, value), ..self },
            None => self,
        }
    }

    /// The globals after assigning to a variable.
    pub open spec fn assigned_global(
        self,
        engine: EngineView,
        id: Seq<char>,
        access: AccessPathKind,
        value: ValueView,
    ) -> EngineView {
        if holder(self.in_reach(access), id) is None && engine.globals.dom().contains(id) {
            EngineView { globals: engine.globals.insert(id, value), ..engine }
        } else {
            engine
        }
    }

    /// The locals after defining a variable.
    pub open spec fn defined(
        self,
        id: Seq<char>,
        access: AccessPathKind,
        value: ValueView,
    ) -> StackView {
        match access {
            AccessPathKind::Local => StackView {
                layers: with_local(self.layers, self.layers.len() - 1, id, value),
                known: self.known.insert(id),
                ..self
            },
            AccessPathKind::Descope(n) => StackView {
                layers: with_local_below(self.layers, id, value, n as nat),
                known: self.known.insert(id),
                ..self
            },
            AccessPathKind::ExplicitGlobal => self,
        }
    }

    /// The globals after defining a variable.
    pub open spec fn defined_global(
        self,
        engine: EngineView,
        id: Seq<char>,
        access: AccessPathKind,
        value: ValueView,
    ) -> EngineView {
        if access is ExplicitGlobal {
            EngineView { globals: engine.globals.insert(id, value), ..engine }
        } else {
            engine
        }
    }

    /// The frames as they stand in a stack trace, the top one first.
    pub open spec fn labels(self) -> Seq<Seq<char>> {
        Seq::new(
            self.frames.len(),
            |i: int| self.frames[self.frames.len() - 1 - i].text(),
        )
    }
}

/// The first function among values.
pub open spec fn first_function(values: Seq<ValueView>) -> Option<ValueView>
    decreases values.len(),
{
    if values.len() == 0 {
        None
    } else if values[0] is Function {
        Some(values[0])
    } else {
        first_function(values.drop_first())
    }
}

/// Whether an error says that a variable does not exist.
pub open spec fn says_not_found(error: RuntimeError, id: Seq<char>) -> bool {
    &&& error.error_type is InvalidAccess
    &&& error.description@ == not_found_text(id)
    &&& error.stack_trace is None
}

pub open spec fn not_found_text(id: Seq<char>) -> Seq<char> {
    "variable '"@ + id + "' not found"@
}

fn not_found(id: &str) -> (error: RuntimeError)
    ensures
        says_not_found(error, id@),
{
    let mut description = "variable '".to_owned();
    description.append(id);
    description.append("' not found");
    RuntimeError {
        error_type: RuntimeErrorType::InvalidAccess,
        description,
        stack_trace: None,
    }
}

/// Equal texts that come one after the other, with their number.
pub open spec fn runs(labels: Seq<Seq<char>>) -> Seq<(Seq<char>, nat)>
    decreases labels.len(),
{
    if labels.len() == 0 {
        Seq::empty()
    } else {
        let before = runs(labels.drop_last());
        if before.len() > 0 && before.last().0 == labels.last() {
            before.drop_last().push((labels.last(), before.last().1 + 1))
        } else {
            before.push((labels.last(), 1))
        }
    }
}

/// A line of a stack trace.
pub open spec fn trace_line(run: (Seq<char>, nat)) -> Seq<char> {
    if run.1 == 1 {
        "-> "@ + run.0
    } else {
        "-> "@ + run.0 + " ("@ + decimal(run.1) + " frames)"@
    }
}

/// Lines of a stack trace, each with a line break.
pub open spec fn trace_lines(runs: Seq<(Seq<char>, nat)>) -> Seq<char>
    decreases runs.len(),
{
    if runs.len() == 0 {
        Seq::empty()
    } else {
        trace_lines(runs.drop_last()) + trace_line(runs.last()) + seq!['\n']
    }
}

/// A stack trace: one line for each run of equal frames, with line breaks between the lines.
pub open spec fn trace(runs: Seq<(Seq<char>, nat)>) -> Seq<char> {
    if runs.len() == 0 {
        Seq::empty()
    } else {
        trace_lines(runs.drop_last()) + trace_line(runs.last())
    }
}

fn push_trace_line(out: &mut String, label: &String, count: usize)
    ensures
        final(out)@ == old(out)@ + trace_line((label@, count as nat)),
{
    out.append("-> ");
    out.append(label.as_str());
    if count != 1 {
        out.append(" (");
        push_decimal(out, count as u64);
        out.append(" frames)");
    }
    assert(out@ =~= old(out)@ + trace_line((label@, count as nat)));
}

/// The value of a name is that in the topmost layer that holds it.
pub proof fn lemma_pile_holder(layers: Seq<Map<Seq<char>, ValueView>>, id: Seq<char>)
    ensures
        match holder(layers, id) {
            Some(i) => pile(layers, id).len() > 0 && pile(layers, id)[0] == layers[i][id],
            None => pile(layers, id).len() == 0,
        },
    decreases layers.len(),
{
    if layers.len() > 0 && !layers.last().dom().contains(id) {
        lemma_pile_holder(layers.drop_last(), id);
        lemma_holder(layers.drop_last(), id);
    }
}

/// The value to use of those that a name has: the topmost, unless a function is wanted and is
/// found below it or among the globals.
fn choose_function(vars: &Vec<&RantVar>, context: &Rant, id: &str) -> (value: RantValue)
    requires
        vars@.len() > 0,
    ensures
        value@ == ({
            let values = var_views(vars@);
            if values[0] is Function {
                values[0]
            } else {
                match first_function(values) {
                    Some(func) => func,
                    None => if context@.globals.dom().contains(id@) && context@.globals[id@] is Function {
                        context@.globals[id@]
                    } else {
                        values[0]
                    },
                }
            }
        }),
{
    let ghost values = var_views(vars@);
    assert(values.skip(0) =~= values);
    let mut i: usize = 0;
    while i < vars.len()
        invariant
            i <= vars@.len(),
            values == var_views(vars@),
            first_function(values) == first_function(values.skip(i as int)),
            i > 0 ==> !(values[0] is Function),
        decreases vars@.len() - i,
    {
        let value = vars[i].value_ref();
        assert(values.skip(i as int)[0] == value@);
        if value.is_callable() {
            return value.clone();
        }
        assert(values.skip(i as int).drop_first() =~= values.skip(i + 1));
        i = i + 1;
    }
    if let Some(var) = context.get_global_var(id) {
        if var.value_ref().is_callable() {
            return var.value_cloned();
        }
    }
    vars[0].value_cloned()
}

impl Default for CallStack {
    fn default() -> (stack: Self)
        ensures
            stack@ == empty_stack(),
            stack@.wf(),
    {
        CallStack::new()
    }
}

impl CallStack {
    /// Each frame has a layer of local variables.
    pub open spec fn wf(&self) -> bool {
        self@.wf()
    }

    pub fn new() -> (stack: Self)
        ensures
            stack@ == empty_stack(),
            stack.wf(),
    {
        let stack = CallStack { frames: Vec::new(), locals: new_locals() };
        assert(stack@ =~= empty_stack());
        stack
    }

    pub fn is_empty(&self) -> (empty: bool)
        ensures
            empty == (self@.frames.len() == 0),
    {
        self.frames.len() == 0
    }

    pub fn len(&self) -> (len: usize)
        ensures
            len == self@.frames.len(),
    {
        self.frames.len()
    }

    /// Takes the top frame away, with its local variables.
    pub fn pop_frame(&mut self) -> (frame: Option<StackFrame>)
        requires
            old(self).wf(),
        ensures
            final(self).wf(),
            match frame {
                Some(frame) => {
                    &&& old(self)@.frames.len() > 0
                    &&& frame@ == old(self)@.frames.last()
                    &&& final(self)@ == old(self)@.popped()
                },
                None => old(self)@.frames.len() == 0 && final(self)@ == old(self)@,
            },
    {
        if let Some(frame) = self.frames.pop() {
            pop_locals(&mut self.locals);
            assert(self@ =~= old(self)@.popped());
            return Some(frame);
        }
        None
    }

    /// Puts a frame on top, without local variables.
    pub fn push_frame(&mut self, frame: StackFrame)
        requires
            old(self).wf(),
        ensures
            final(self).wf(),
            final(self)@ == old(self)@.pushed(frame@),
    {
        push_locals(&mut self.locals);
        self.frames.push(frame);
        assert(self@ =~= old(self)@.pushed(frame@));
    }

    /// The top frame, to be changed.
    pub fn top_mut(&mut self) -> (frame: Option<&mut StackFrame>)
        ensures
            match frame {
                Some(frame) => {
                    &&& old(self)@.frames.len() > 0
                    &&& frame@ == old(self)@.frames.last()
                    &&& final(self)@ == old(self)@.with_top(final(frame)@)
                },
                None => old(self)@.frames.len() == 0 && final(self)@ == old(self)@,
            },
    {
        let ghost before = self@;
        let ghost frames = self.frames@;
        proof {
            assert forall|frame: StackFrame| frames.len() > 0 implies #[trigger] frame_views(
                frames.update(frames.len() - 1, frame),
            ) == before.frames.drop_last().push(frame@) by {
                assert(frame_views(frames.update(frames.len() - 1, frame))
                    =~= before.frames.drop_last().push(frame@));
            }
        }
        let len: usize = self.frames.len();
        if len > 0 {
            Some(&mut self.frames[len - 1])
        } else {
            None
        }
    }

    /// The top frame.
    pub fn top(&self) -> (frame: Option<&StackFrame>)
        ensures
            match frame {
                Some(frame) => self@.frames.len() > 0 && frame@ == self@.frames.last(),
                None => self@.frames.len() == 0,
            },
    {
        if self.frames.len() > 0 {
            Some(&self.frames[self.frames.len() - 1])
        } else {
            None
        }
    }

    /// A stack trace, with equal frames that come one after the other on one line.
    pub fn gen_stack_trace(&self) -> (text: String)
        ensures
            text@ == trace(runs(self@.labels())),
    {
        let mut trace = String::new();
        let mut last_frame_info: Option<(String, usize)> = None;
        let len: usize = self.frames.len();
        let mut i: usize = 0;
        let ghost labels = self@.labels();
        assert(labels.take(0) =~= Seq::empty());
        while i < len
            invariant
                i <= len,
                len == self.frames@.len(),
                labels == self@.labels(),
                match last_frame_info {
                    Some((label, count)) => {
                        let done = runs(labels.take(i as int));
                        &&& done.len() > 0
                        &&& done.last() == (label@, count as nat)
                        &&& trace@ == trace_lines(done.drop_last())
                        &&& count <= i
                    },
                    None => i == 0 && trace@ == Seq::<char>::empty(),
                },
            decreases len - i,
        {
            let current_frame_string = self.frames[len - 1 - i].to_text();
            proof {
                assert(labels.take(i + 1).drop_last() =~= labels.take(i as int));
                assert(labels.take(i + 1).last() == current_frame_string@);
            }
            let ghost done = runs(labels.take(i as int));
            let ghost after = runs(labels.take(i + 1));
            match last_frame_info.take() {
                Some((last_frame_string, count)) => {
                    if current_frame_string == last_frame_string {
                        last_frame_info = Some((last_frame_string, count + 1));
                        assert(after.drop_last() =~= done.drop_last());
                    } else {
                        // Emit the last repeated frame
                        push_trace_line(&mut trace, &last_frame_string, count);
                        trace.push('\n');
                        last_frame_info = Some((current_frame_string, 1));
                        assert(after.drop_last() =~= done);
                        assert(trace@ =~= trace_lines(done));
                    }
                },
                None => {
                    last_frame_info = Some((current_frame_string, 1));
                    assert(done =~= Seq::empty());
                    assert(after.drop_last() =~= Seq::empty());
                },
            }
            i = i + 1;
        }
        assert(labels.take(i as int) =~= labels);
        // Emit the bottom frame
        if let Some((last_frame_string, count)) = last_frame_info {
            push_trace_line(&mut trace, &last_frame_string, count);
        }
        trace
    }

    /// Assigns to a variable: the local one that the access finds, else the global one.
    pub fn set_var_value(
        &mut self,
        context: &mut Rant,
        id: &str,
        access: AccessPathKind,
        val: RantValue,
    ) -> (result: RuntimeResult<()>)
        ensures
            final(self)@ == old(self)@.assigned(id@, access, val@),
            final(context)@ == old(self)@.assigned_global(old(context)@, id@, access, val@),
            match result {
                Ok(_) => old(self)@.can_assign(old(context)@.globals, id@, access),
                Err(error) => {
                    &&& !old(self)@.can_assign(old(context)@.globals, id@, access)
                    &&& says_not_found(error, id@)
                },
            },
    {
        match access {
            AccessPathKind::Local => {
                if let Some(var) = get_local_mut(&mut self.locals, id) {
                    var.write(val);
                    return Ok(());
                }
            },
            AccessPathKind::Descope(n) => {
                if let Some(var) = get_parent_local_mut(&mut self.locals, id, n) {
                    var.write(val);
                    return Ok(());
                }
            },
            // Skip locals completely if it's a global accessor
            AccessPathKind::ExplicitGlobal => {},
        }
        // Check globals
        if context.has_global(id) {
            context.set_global(id, val);
            return Ok(());
        }
        Err(not_found(id))
    }

    /// The value of a variable: the local one that the access finds, else the global one.
    ///
    /// If a function is preferred, the name must not be one whose local variables are all gone.
    pub fn get_var_value(
        &self,
        context: &Rant,
        id: &str,
        access: AccessPathKind,
        prefer_function: bool,
    ) -> (result: RuntimeResult<RantValue>)
        requires
            !(prefer_function && self@.dangling(id@, access)),
        ensures
            match (result, self@.lookup(context@.globals, id@, access, prefer_function)) {
                (Ok(value), Some(view)) => value@ == view,
                (Err(error), None) => says_not_found(error, id@),
                _ => false,
            },
    {
        match self.try_get_var_value(context, id, access, prefer_function) {
            Some(result) => result,
            None => Err(not_found(id)),
        }
    }

    /// The value of a variable, as [`CallStack::get_var_value`] gives it; nothing if a function is
    /// preferred and the local variables of that name are all gone.
    pub fn try_get_var_value(
        &self,
        context: &Rant,
        id: &str,
        access: AccessPathKind,
        prefer_function: bool,
    ) -> (result: Option<RuntimeResult<RantValue>>)
        ensures
            result is None <==> prefer_function && self@.dangling(id@, access),
            result matches Some(result) ==> match (
                result,
                self@.lookup(context@.globals, id@, access, prefer_function),
            ) {
                (Ok(value), Some(view)) => value@ == view,
                (Err(error), None) => says_not_found(error, id@),
                _ => false,
            },
    {
        proof {
            lemma_pile_holder(self@.in_reach(access), id@);
            lemma_holder(self@.in_reach(access), id@);
        }
        match access {
            AccessPathKind::Local => {
                // If the caller requested a function, perform "trickle-down" function lookup
                if prefer_function {
                    if let Some(vars) = get_all_locals(&self.locals, id) {
                        if vars.len() == 0 {
                            return None;
                        }
                        return Some(Ok(choose_function(&vars, context, id)));
                    }
                } else if let Some(var) = get_local(&self.locals, id) {
                    return Some(Ok(var.value_cloned()));
                }
            },
            AccessPathKind::Descope(n) => {
                if prefer_function {
                    if let Some(vars) = get_parent_locals(&self.locals, id, n) {
                        if vars.len() == 0 {
                            return None;
                        }
                        return Some(Ok(choose_function(&vars, context, id)));
                    }
                } else if let Some(var) = get_parent_local(&self.locals, id, n) {
                    return Some(Ok(var.value_cloned()));
                }
            },
            AccessPathKind::ExplicitGlobal => {},
        }
        // Check globals
        if let Some(val) = context.get_global(id) {
            return Some(Ok(val));
        }
        Some(Err(not_found(id)))
    }

    /// A variable, to be changed: the local one that the access finds, else the global one.
    pub fn get_var_mut<'a>(
        &'a mut self,
        context: &'a mut Rant,
        id: &str,
        access: AccessPathKind,
    ) -> (result: RuntimeResult<&'a mut RantVar>)
        ensures
            match result {
                Ok(var) => {
                    &&& old(self)@.lookup(old(context)@.globals, id@, access, false) == Some(var@)
                    &&& final(self)@ == old(self)@.assigned(id@, access, final(var)@)
                    &&& final(context)@ == old(self)@.assigned_global(
                        old(context)@,
                        id@,
                        access,
                        final(var)@,
                    )
                },
                Err(error) => {
                    &&& old(self)@.lookup(old(context)@.globals, id@, access, false) is None
                    &&& final(self)@ == old(self)@
                    &&& final(context)@ == old(context)@
                    &&& says_not_found(error, id@)
                },
            },
    {
        proof {
            lemma_pile_holder(self@.in_reach(access), id@);
            lemma_holder(self@.in_reach(access), id@);
        }
        match access {
            AccessPathKind::Local => {
                if let Some(var) = get_local_mut(&mut self.locals, id) {
                    return Ok(var);
                }
            },
            AccessPathKind::Descope(n) => {
                if let Some(var) = get_parent_local_mut(&mut self.locals, id, n) {
                    return Ok(var);
                }
            },
            AccessPathKind::ExplicitGlobal => {},
        }
        // Check globals
        if let Some(var) = context.get_global_var_mut(id) {
            return Ok(var);
        }
        Err(not_found(id))
    }

    /// Defines a variable.
    pub fn def_var(
        &mut self,
        context: &mut Rant,
        id: &str,
        access: AccessPathKind,
        var: RantVar,
    ) -> (result: RuntimeResult<()>)
        requires
            old(self).wf(),
            access matches AccessPathKind::Descope(n) ==> n < usize::MAX,
        ensures
            final(self).wf(),
            result is Ok,
            final(self)@ == old(self)@.defined(id@, access, var@),
            final(context)@ == old(self)@.defined_global(old(context)@, id@, access, var@),
    {
        match access {
            AccessPathKind::Local => {
                define_local(&mut self.locals, id.to_owned(), var);
                return Ok(());
            },
            AccessPathKind::Descope(descope_count) => {
                proof {
                    let target = layer_below(self@.layers.len(), descope_count as nat);
                    lemma_holder(self@.layers.take(target), id@);
                }
                define_parent_local(&mut self.locals, id.to_owned(), var, descope_count);
                return Ok(());
            },
            AccessPathKind::ExplicitGlobal => {},
        }
        context.set_global_var(id, var);
        Ok(())
    }

    /// Defines a variable with the given value.
    pub fn def_var_value(
        &mut self,
        context: &mut Rant,
        id: &str,
        access: AccessPathKind,
        val: RantValue,
    ) -> (result: RuntimeResult<()>)
        requires
            old(self).wf(),
            access matches AccessPathKind::Descope(n) ==> n < usize::MAX,
        ensures
            final(self).wf(),
            result is Ok,
            final(self)@ == old(self)@.defined(id@, access, val@),
            final(context)@ == old(self)@.defined_global(old(context)@, id@, access, val@),
    {
        self.def_var(context, id, access, RantVar::ByVal(val))
    }

    /// Scans ("tastes") the stack from the top looking for the first occurrence of the specified
    /// frame flavor. Returns the top-relative index of the first occurrence, or `None` if no match
    /// was found or a stronger flavor was found first.
    pub fn taste_for_first(&self, target_flavor: StackFrameFlavor) -> (index: Option<usize>)
        ensures
            match index {
                Some(i) => {
                    &&& i < self@.frames.len()
                    &&& self@.frames[self@.frames.len() - 1 - i].flavor == target_flavor
                    &&& weaker_above(self@.frames, i as nat, target_flavor)
                },
                None => exists|i: nat| #[trigger]
                    weaker_above(self@.frames, i, target_flavor) && i <= self@.frames.len() && (i
                        < self@.frames.len() ==> self@.frames[self@.frames.len() - 1
                        - i].flavor.strength() > target_flavor.strength()),
            },
    {
        let len: usize = self.frames.len();
        let mut i: usize = 0;
        while i < len
            invariant
                i <= len,
                len == self.frames@.len(),
                weaker_above(self@.frames, i as nat, target_flavor),
            decreases len - i,
        {
            let flavor = self.frames[len - 1 - i].flavor();
            if flavor.is_stronger_than(target_flavor) {
                assert(weaker_above(self@.frames, i as nat, target_flavor));
                return None;
            } else if flavor == target_flavor {
                return Some(i);
            }
            i = i + 1;
        }
        assert(weaker_above(self@.frames, i as nat, target_flavor));
        None
    }

    /// Scans ("tastes") the stack from the top looking for the first occurrence of the specified
    /// frame flavor. Returns the top-relative index of the first occurrence, or `None` if no match
    /// was found or another flavor was found first.
    pub fn taste_for(&self, target_flavor: StackFrameFlavor) -> (index: Option<usize>)
        ensures
            index == if self@.frames.len() > 0 && self@.frames.last().flavor == target_flavor {
                Some(0usize)
            } else {
                None
            },
    {
        let len: usize = self.frames.len();
        // Whatever is found first is on top
        if len > 0 && self.frames[len - 1].flavor() == target_flavor {
            Some(0)
        } else {
            None
        }
    }
}

/// Whether the `count` topmost frames all have a weaker flavor.
pub open spec fn weaker_above(
    frames: Seq<FrameView>,
    count: nat,
    flavor: StackFrameFlavor,
) -> bool {
    forall|j: int|
        0 <= j < count ==> (#[trigger] frames[frames.len() - 1 - j]).flavor.strength()
            < flavor.strength()
}

} // verus!

//! The virtual machine: which steps need a random number.

use std::rc::Rc;
use vstd::prelude::*;
use crate::runtime::frame::FrameView;
use crate::runtime::intent::{Intent, IntentView};
use crate::runtime::machine::{
    act, follow, pop_val, pop_vals, step_element, step_intent, HaltView, Machine,
};
use crate::runtime::program::{Block, MapKeyExpr, Sequence, VarAccessPath, RST};
use crate::runtime::vm::VM;
use crate::value::{RantFunction, RantFunctionInterface, RantValue, ValueView};

verus! {

/// Whether the next step picks an element of a block.
pub open spec fn picks(m: Machine) -> bool {
    if m.top().intents.len() > 0 {
        intent_picks(m.vals, m.top().intents[0])
    } else {
        match m.top().advanced().0 {
            Some(element) => *element matches RST::Block(block) && has_elements(block),
            None => false,
        }
    }
}

pub open spec fn has_elements(block: Rc<Block>) -> bool {
    block.elements@.len() > 0
}

/// Whether handling an intent picks an element of a block, where `vals` is on the value stack.
pub open spec fn intent_picks(vals: Seq<ValueView>, intent: IntentView) -> bool {
    match intent {
        IntentView::BuildDynamicGetter { pending_exprs, .. } => pending_exprs.len() > 0
            && has_elements(pending_exprs.last()),
        IntentView::BuildDynamicSetter { pending_exprs, .. } => pending_exprs.len() > 0
            && has_elements(pending_exprs.last()),
        IntentView::Invoke { arg_exprs, eval_count, .. } => {
            let argc = arg_exprs@.len();
            &&& eval_count >= argc
            &&& vals.len() > argc
            &&& vals[vals.len() - 1 - argc] matches ValueView::Function(func)
            &&& call_picks(func, argc)
        },
        IntentView::BuildMap { init, pair_index, .. } => {
            &&& pair_index < init@.len()
            &&& last_pair_is_there(vals, init, pair_index)
            &&& init@[pair_index as int].0 matches MapKeyExpr::Dynamic(block)
            &&& has_elements(block)
        },
        _ => false,
    }
}

/// Whether the values of the pair evaluated last are on the value stack.
pub open spec fn last_pair_is_there(
    vals: Seq<ValueView>,
    init: Rc<Vec<(MapKeyExpr, Rc<Sequence>)>>,
    pair_index: nat,
) -> bool {
    pair_index > 0 ==> vals.len() >= if init@[pair_index - 1].0 is Dynamic {
        2nat
    } else {
        1
    }
}

/// Whether calling a function with that many arguments picks an element of its body.
pub open spec fn call_picks(func: Rc<RantFunction>, argc: nat) -> bool {
    &&& func.body matches RantFunctionInterface::User(block) && has_elements(block)
    &&& argc >= func.min_arg_count
    &&& if func.spec_is_variadic() {
        argc >= func.vararg_start_index
    } else {
        argc <= func.params@.len()
    }
}

/// A step needs a random number if and only if it picks an element and there is none.
pub proof fn lemma_picks(m: Machine)
    requires
        m.stack.frames.len() > 0,
    ensures
        act(m).0 is NeedsDraw <==> m.draws.len() == 0 && picks(m),
{
    let top = m.top();
    if top.intents.len() > 0 {
        let m1 = m.with_top(FrameView { intents: top.intents.drop_first(), ..top });
        lemma_intent_picks(m1, top.intents[0]);
    } else {
        reveal(step_element);
    }
}

proof fn lemma_intent_picks(m: Machine, intent: IntentView)
    ensures
        step_intent(m, intent).0 is NeedsDraw <==> m.draws.len() == 0 && intent_picks(
            m.vals,
            intent,
        ),
{
    reveal(step_intent);
    match intent {
        IntentView::Invoke { arg_exprs, eval_count, flag } => {
            let argc = arg_exprs@.len();
            if eval_count >= argc && m.vals.len() > argc {
                assert(m.vals.take(m.vals.len() - argc).last() == m.vals[m.vals.len() - 1 - argc]);
            }
        },
        IntentView::GetValue { path, dynamic_key_count, .. } => {
            if let (Ok(keys), m1) = pop_vals(m, dynamic_key_count) {
                lemma_follow_picks_nothing(m1, path, keys, path.parts@.len() as int);
            }
        },
        IntentView::SetValue { path, expr_count, .. } => {
            if let (Ok(keys), m1) = pop_vals(pop_val(m).1, expr_count) {
                lemma_follow_picks_nothing(m1, path, keys.reverse(), path.parts@.len() - 1);
            }
        },
        _ => {},
    }
}

proof fn lemma_follow_picks_nothing(
    m: Machine,
    path: Rc<VarAccessPath>,
    keys: Seq<ValueView>,
    count: int,
)
    ensures
        !(follow(m, *path, keys, count) matches Err(HaltView::NeedsDraw)),
    decreases count,
{
    if count > 1 {
        lemma_follow_picks_nothing(m, path, keys, count - 1);
    }
}

impl VM {
    /// Whether the next step picks an element of a block.
    pub(crate) fn will_pick(&self) -> (will: bool)
        requires
            self.machine().stack.frames.len() > 0,
        ensures
            will == picks(self.machine()),
    {
        match self.cur_frame().peek_intent() {
            Some(intent) => self.intent_will_pick(intent),
            None => match self.cur_frame().peek_element() {
                Some(element) => match &*element {
                    RST::Block(block) => block.elements.len() > 0,
                    _ => false,
                },
                None => false,
            },
        }
    }

    fn intent_will_pick(&self, intent: &Intent) -> (will: bool)
        ensures
            will == intent_picks(self.machine().vals, intent@),
    {
        match intent {
            Intent::BuildDynamicGetter { pending_exprs, .. }
            | Intent::BuildDynamicSetter { pending_exprs, .. } => {
                let len: usize = pending_exprs.len();
                len > 0 && pending_exprs[len - 1].elements.len() > 0
            },
            Intent::Invoke { arg_exprs, eval_count, .. } => {
                let argc: usize = arg_exprs.len();
                *eval_count >= argc && match self.peek_val(argc) {
                    Some(RantValue::Function(func)) => call_will_pick(func, argc),
                    _ => false,
                }
            },
            Intent::BuildMap { init, pair_index, .. } => {
                if *pair_index >= init.len() {
                    return false;
                }
                if *pair_index > 0 {
                    let needed: usize = match &init[*pair_index - 1].0 {
                        MapKeyExpr::Dynamic(_) => 1,
                        MapKeyExpr::Static(_) => 0,
                    };
                    if self.peek_val(needed).is_none() {
                        return false;
                    }
                }
                match &init[*pair_index].0 {
                    MapKeyExpr::Dynamic(block) => block.elements.len() > 0,
                    MapKeyExpr::Static(_) => false,
                }
            },
            _ => false,
        }
    }
}

fn call_will_pick(func: &Rc<RantFunction>, argc: usize) -> (will: bool)
    ensures
        will == call_picks(*func, argc as nat),
{
    let fits = argc >= func.min_arg_count && if func.is_variadic() {
        argc >= func.vararg_start_index
    } else {
        argc <= func.params.len()
    };
    match &func.body {
        RantFunctionInterface::User(block) => fits && block.elements.len() > 0,
        RantFunctionInterface::Foreign(_) => false,
    }
}

} // verus!

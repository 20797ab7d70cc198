//! The virtual machine: running programs.

use std::rc::Rc;
use vstd::prelude::*;
use crate::runtime::calls::settle;
use crate::runtime::halting::lemma_halts;
use crate::runtime::intent::Intent;
use crate::runtime::machine::{push_expr, settled, step, step_intent, steps, Machine, ProgressView};
use crate::runtime::picking::lemma_picks;
use crate::runtime::program::Sequence;
use crate::runtime::vm::{Progress, VM};
use crate::value::RantValue;

verus! {

/// What a machine comes to: how it stops, and its state then.
pub open spec fn outcome(m: Machine) -> (ProgressView, Machine) {
    steps(m, choose|count: nat| !((#[trigger] steps(m, count)).0 is Running))
}

/// What the machine comes to if it starts with the root of a program on the call stack.
pub open spec fn run_outcome(m: Machine, root: Rc<Sequence>) -> (
    ProgressView,
    Machine,
) {
    let (result, m1) = push_expr(m, root);
    match result {
        Ok(_) => outcome(m1),
        Err(_) => settled((result, m1)),
    }
}

/// A machine that has stopped does not go on.
proof fn lemma_stopped(m: Machine, few: nat, many: nat)
    requires
        few <= many,
        !(steps(m, few).0 is Running),
    ensures
        steps(m, many) == steps(m, few),
    decreases few,
{
    if few > 0 && step(m).0 is Running {
        lemma_stopped(step(m).1, (few - 1) as nat, (many - 1) as nat);
    }
}

/// However many steps it takes a machine to stop, it comes to the same.
pub proof fn lemma_outcome(m: Machine, count: nat)
    requires
        !(steps(m, count).0 is Running),
    ensures
        steps(m, count) == outcome(m),
        !(outcome(m).0 is Running),
{
    let other = choose|count: nat| !((#[trigger] steps(m, count)).0 is Running);
    if other <= count {
        lemma_stopped(m, other, count);
    } else {
        lemma_stopped(m, count, other);
    }
}

/// A machine comes to what it comes to after any step that it can go on from.
pub proof fn lemma_outcome_step(m: Machine)
    requires
        step(m).0 is Running,
    ensures
        outcome(m) == outcome(step(m).1),
{
    lemma_halts(step(m).1);
    let count = choose|count: nat| !((#[trigger] steps(step(m).1, count)).0 is Running);
    lemma_outcome(step(m).1, count);
    assert(steps(m, count + 1) == steps(step(m).1, count));
    lemma_outcome(m, count + 1);
}

impl VM {
    /// Handles an intent that was taken from the current frame.
    fn handle_intent(&mut self, intent: Intent) -> (progress: Progress)
        requires
            old(self).wf(),
            old(self).machine().stack.frames.len() > 0,
        ensures
            final(self).continues(old(self)),
            (progress@, final(self).machine()) == step_intent(old(self).machine(), intent@),
    {
        proof {
            reveal(step_intent);
        }
        let result = match intent {
            Intent::PrintLastOutput => match self.pop_val() {
                Ok(val) => {
                    self.write_value(val);
                    Ok(())
                },
                Err(halt) => Err(halt),
            },
            Intent::SetVar { vname } => match self.pop_val() {
                Ok(val) => self.set_local(vname.as_str(), val),
                Err(halt) => Err(halt),
            },
            Intent::DefVar { vname } => match self.pop_val() {
                Ok(val) => {
                    self.def_local(vname.as_str(), val);
                    Ok(())
                },
                Err(halt) => Err(halt),
            },
            Intent::BuildDynamicGetter {
                path,
                dynamic_key_count,
                pending_exprs,
                override_print,
            } => self.build_dynamic_getter(path, dynamic_key_count, pending_exprs, override_print),
            Intent::GetValue { path, dynamic_key_count, override_print } => self.get_value(
                path,
                dynamic_key_count,
                override_print,
            ),
            Intent::BuildDynamicSetter {
                path,
                auto_def,
                expr_count,
                pending_exprs,
                val_source,
            } => self.build_dynamic_setter(path, auto_def, expr_count, pending_exprs, val_source),
            Intent::SetValue { path, auto_def, expr_count } => self.set_value(
                path,
                auto_def,
                expr_count,
            ),
            Intent::Invoke { arg_exprs, eval_count, flag } => {
                return self.invoke(arg_exprs, eval_count, flag);
            },
            Intent::BuildList { init, index, list } => self.build_list(init, index, list),
            Intent::BuildMap { init, pair_index, map } => self.build_map(init, pair_index, map),
            Intent::RuntimeCall(call) => {
                return Progress::HostCall(call);
            },
        };
        settle(result)
    }

    /// Does one step.
    pub fn step(&mut self) -> (progress: Progress)
        requires
            old(self).wf(),
        ensures
            final(self).continues(old(self)),
            (progress@, final(self).machine()) == step(old(self).machine()),
    {
        // Once stack is empty, program is done-- return last frame's output as a string
        if self.is_stack_empty() {
            let output = match self.pop_val() {
                Ok(val) => val,
                Err(_) => RantValue::Empty,
            };
            return Progress::Finished(output.to_text());
        }
        proof {
            lemma_picks(self.machine());
        }
        // Wait for a random number only if one is about to be used
        if !self.has_draw() && self.will_pick() {
            return Progress::NeedsDraw;
        }
        // Read frame's current intents and handle them before running the sequence
        if let Some(intent) = self.cur_frame_mut().take_intent() {
            return self.handle_intent(intent);
        }
        // Run frame's sequence elements in order
        assert(self.machine() =~= old(self).machine());
        let ghost m = self.machine();
        if let Some(rst) = self.cur_frame_mut().seq_next() {
            let result = self.step_element(&rst);
            return settle(result);
        }
        assert(self.machine().stack.popped() =~= m.stack.popped());
        // Pop frame once its sequence is finished
        let result = self.finish_frame();
        settle(result)
    }

    /// Goes on until the machine stops.
    pub fn try_resume(&mut self) -> (progress: Progress)
        requires
            old(self).wf(),
        ensures
            final(self).continues(old(self)),
            (progress@, final(self).machine()) == outcome(old(self).machine()),
            !(progress@ is Running),
    {
        let ghost m0 = self.machine();
        let ghost mut left: nat = 0;
        proof {
            lemma_halts(m0);
            left = choose|count: nat| !((#[trigger] steps(m0, count)).0 is Running);
        }
        let mut progress = Progress::Running;
        while matches!(progress, Progress::Running)
            invariant
                self.continues(old(self)),
                m0 == old(self).machine(),
                progress@ is Running ==> outcome(self.machine()) == outcome(m0) && !(steps(
                    self.machine(),
                    left,
                ).0 is Running),
                !(progress@ is Running) ==> (progress@, self.machine()) == outcome(m0),
            decreases
                    left + if progress@ is Running {
                        1nat
                    } else {
                        0
                    },
        {
            let ghost m = self.machine();
            progress = self.step();
            proof {
                if progress@ is Running {
                    lemma_outcome_step(m);
                } else {
                    reveal_with_fuel(steps, 2);
                    assert(steps(m, 1) == step(m));
                    lemma_outcome(m, 1);
                }
                left = (left - 1) as nat;
            }
        }
        progress
    }

    /// Goes on until the machine stops. The program must not ask for something that makes no sense.
    pub fn resume(&mut self) -> (progress: Progress)
        requires
            old(self).wf(),
            !(outcome(old(self).machine()).0 is Stuck),
        ensures
            final(self).continues(old(self)),
            (progress@, final(self).machine()) == outcome(old(self).machine()),
            !(progress@ is Running),
    {
        self.try_resume()
    }

    /// Runs the program until the machine stops.
    pub fn try_run(&mut self) -> (progress: Progress)
        requires
            old(self).wf(),
        ensures
            final(self).continues(old(self)),
            (progress@, final(self).machine()) == run_outcome(
                old(self).machine(),
                old(self).root(),
            ),
            !(progress@ is Running),
    {
        // Push the program's root sequence onto the call stack
        let root = self.root_sequence();
        match self.push_expr(root) {
            Ok(_) => self.try_resume(),
            Err(halt) => settle(Err(halt)),
        }
    }

    /// Runs the program until the machine stops. The program must not ask for something that makes
    /// no sense.
    pub fn run(&mut self) -> (progress: Progress)
        requires
            old(self).wf(),
            !(run_outcome(old(self).machine(), old(self).root()).0 is Stuck),
        ensures
            final(self).continues(old(self)),
            (progress@, final(self).machine()) == run_outcome(
                old(self).machine(),
                old(self).root(),
            ),
            !(progress@ is Running),
    {
        self.try_run()
    }
}

} // verus!

//! The virtual machine: running program elements.

use std::rc::Rc;
use vstd::prelude::*;
use crate::collections::{RantList, RantMap};
use crate::compiler::lang::{Parameter, PrintFlag};
use crate::runtime::intent::{Intent, SetterValueSource};
use crate::runtime::machine::{getter, step_element, user_function};
use crate::runtime::program::{count_required, find_variadic, Block, Sequence, VarAccessPath, RST};
use crate::runtime::vm::{unit_result, Halt, VM};
use crate::value::{value_views, RantFunction, RantFunctionInterface, RantValue};

verus! {

/// The intent to read what a path leads to.
fn make_getter(path: &Rc<VarAccessPath>, override_print: bool) -> (intent: Intent)
    ensures
        intent@ == getter(*path, override_print),
{
    // Get list of dynamic keys in path
    let dynamic_keys = path.dynamic_keys();
    if dynamic_keys.len() == 0 {
        // Getter is static, so run it directly
        Intent::GetValue { path: Rc::clone(path), dynamic_key_count: 0, override_print }
    } else {
        // Build dynamic keys before running getter
        Intent::BuildDynamicGetter {
            dynamic_key_count: dynamic_keys.len(),
            path: Rc::clone(path),
            pending_exprs: dynamic_keys,
            override_print,
        }
    }
}

/// The expressions, the last one first, so that the first one is popped first.
fn last_first(exprs: &Vec<Rc<Block>>) -> (result: Vec<Rc<Block>>)
    ensures
        result@ == exprs@.reverse(),
{
    let mut result: Vec<Rc<Block>> = Vec::new();
    let len: usize = exprs.len();
    let mut i: usize = 0;
    while i < len
        invariant
            i <= len,
            len == exprs@.len(),
            result@.len() == i,
            forall|j: int| 0 <= j < i ==> #[trigger] result@[j] == exprs@[len - 1 - j],
        decreases len - i,
    {
        result.push(Rc::clone(&exprs[len - 1 - i]));
        i = i + 1;
    }
    assert(result@ =~= exprs@.reverse());
    result
}

/// A function of the program.
fn make_function(params: &Rc<Vec<Parameter>>, body: &Rc<Block>) -> (func: Rc<RantFunction>)
    ensures
        func == user_function(*params, *body),
{
    Rc::new(
        RantFunction {
            params: Rc::clone(params),
            body: RantFunctionInterface::User(Rc::clone(body)),
            min_arg_count: count_required(params),
            vararg_start_index: find_variadic(params),
        },
    )
}

impl VM {
    /// Runs an element of the sequence of the current frame.
    pub(crate) fn step_element(&mut self, rst: &Rc<RST>) -> (result: Result<(), Halt>)
        requires
            old(self).wf(),
            old(self).machine().stack.frames.len() > 0,
        ensures
            final(self).continues(old(self)),
            (unit_result(result), final(self).machine()) == step_element(
                old(self).machine(),
                *rst,
            ),
    {
        proof {
            reveal(step_element);
        }
        match &**rst {
            RST::Fragment(frag) => {
                self.cur_frame_mut().write_frag(frag.as_str());
                Ok(())
            },
            RST::Whitespace(ws) => {
                self.cur_frame_mut().write_ws(ws.as_str());
                Ok(())
            },
            RST::Integer(n) => {
                self.write_value(RantValue::Integer(*n));
                Ok(())
            },
            RST::Float(n) => {
                self.write_value(RantValue::Float(n.clone()));
                Ok(())
            },
            RST::EmptyVal => {
                self.write_value(RantValue::Empty);
                Ok(())
            },
            RST::Boolean(b) => {
                self.write_value(RantValue::Boolean(*b));
                Ok(())
            },
            RST::ListInit(elements) => {
                self.push_intent_front(
                    Intent::BuildList { init: Rc::clone(elements), index: 0, list: RantList::new() },
                );
                Ok(())
            },
            RST::MapInit(elements) => {
                self.push_intent_front(
                    Intent::BuildMap {
                        init: Rc::clone(elements),
                        pair_index: 0,
                        map: RantMap::new(),
                    },
                );
                Ok(())
            },
            RST::Block(block) => {
                let args: Vec<RantValue> = Vec::new();
                assert(value_views(args@) =~= Seq::empty());
                self.push_block_frame(block, false, &Vec::new(), &args, PrintFlag::Plain)
            },
            RST::VarDef(vname, val_expr) => {
                match val_expr {
                    Some(val_expr) => {
                        // If a value is present, it needs to be evaluated first
                        self.push_intent_front(Intent::DefVar { vname: vname.clone() });
                        self.push_expr(Rc::clone(val_expr))
                    },
                    None => {
                        // If there's no assignment, just set it to <>
                        self.def_local(vname.as_str(), RantValue::Empty);
                        Ok(())
                    },
                }
            },
            RST::VarGet(path) => {
                self.push_intent_front(make_getter(path, false));
                Ok(())
            },
            RST::VarSet(path, val_expr) => self.start_setter(path, val_expr),
            RST::FuncDef(fdef) => {
                let dynamic_keys = fdef.id.dynamic_keys();
                let func = RantValue::Function(make_function(&fdef.params, &fdef.body));
                self.push_intent_front(
                    Intent::BuildDynamicSetter {
                        expr_count: dynamic_keys.len(),
                        auto_def: true,
                        pending_exprs: last_first(&dynamic_keys),
                        path: Rc::clone(&fdef.id),
                        val_source: SetterValueSource::FromValue(func),
                    },
                );
                Ok(())
            },
            RST::Closure(closure_expr) => {
                let func = make_function(&closure_expr.params, &closure_expr.expr);
                self.write_value(RantValue::Function(func));
                Ok(())
            },
            RST::AnonFuncCall(afcall) => {
                // Evaluate arguments after function is evaluated
                self.push_intent_front(
                    Intent::Invoke {
                        arg_exprs: Rc::clone(&afcall.args),
                        eval_count: 0,
                        flag: afcall.flag,
                    },
                );
                // Push function expression onto stack
                self.push_expr(Rc::clone(&afcall.expr))
            },
            RST::FuncCall(fcall) => {
                // Run the getter to retrieve the function we're calling first...
                self.push_intent_front(make_getter(&fcall.id, true));
                // Queue up the function call next
                self.cur_frame_mut().push_intent_back(
                    Intent::Invoke {
                        eval_count: 0,
                        arg_exprs: Rc::clone(&fcall.arguments),
                        flag: fcall.flag,
                    },
                );
                Ok(())
            },
        }
    }

    /// Starts to write to what a path leads to.
    fn start_setter(
        &mut self,
        path: &Rc<VarAccessPath>,
        val_expr: &Rc<Sequence>,
    ) -> (result: Result<(), Halt>)
        requires
            old(self).wf(),
            old(self).machine().stack.frames.len() > 0,
        ensures
            final(self).continues(old(self)),
            (unit_result(result), final(self).machine()) == step_element(
                old(self).machine(),
                Rc::new(RST::VarSet(*path, *val_expr)),
            ),
    {
        proof {
            reveal(step_element);
        }
        // Get list of dynamic keys in path
        let exprs = path.dynamic_keys();
        if exprs.len() == 0 {
            // Setter is static, so run it directly
            self.push_intent_front(
                Intent::SetValue { path: Rc::clone(path), auto_def: false, expr_count: 0 },
            );
            self.push_expr(Rc::clone(val_expr))
        } else {
            // Build dynamic keys before running setter
            self.push_intent_front(
                Intent::BuildDynamicSetter {
                    expr_count: exprs.len(),
                    auto_def: false,
                    path: Rc::clone(path),
                    pending_exprs: last_first(&exprs),
                    val_source: SetterValueSource::FromExpression(Rc::clone(val_expr)),
                },
            );
            Ok(())
        }
    }
}

} // verus!

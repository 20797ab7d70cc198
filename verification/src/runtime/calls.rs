//! The virtual machine: calling functions.

use std::rc::Rc;
use vstd::prelude::*;
use crate::collections::RantList;
use crate::compiler::lang::PrintFlag;
use crate::runtime::error::{ErrorTypeView, RantError, RuntimeErrorType};
use crate::runtime::intent::Intent;
use crate::runtime::machine::{call, described, fit_args, invoke, mismatch_text, settled, Machine};
use crate::runtime::program::Sequence;
use crate::runtime::vm::{unit_result, values_result, Halt, Progress, VM};
use crate::text::push_decimal;
use crate::value::{value_views, RantFunction, RantFunctionInterface, RantValue};

verus! {

/// What a step amounts to that goes on unless there is an error.
pub(crate) fn settle(result: Result<(), Halt>) -> (progress: Progress)
    ensures
        forall|m: Machine|
            (progress@, m) == #[trigger] settled((unit_result(result), m)),
{
    match result {
        Ok(_) => Progress::Running,
        Err(Halt::Error(error)) => Progress::Failed(error),
        Err(Halt::NeedsDraw) => Progress::NeedsDraw,
        Err(Halt::Stuck) => Progress::Stuck,
    }
}

fn mismatch(expected: &str, min: usize, found: usize) -> (halt: Halt)
    ensures
        halt@ == described(
            ErrorTypeView::ArgumentMismatch,
            mismatch_text(expected@, min as nat, found as nat),
        ),
{
    let mut description = "arguments don't match; expected ".to_owned();
    description.append(expected);
    push_decimal(&mut description, min as u64);
    description.append(", found ");
    push_decimal(&mut description, found as u64);
    Halt::Error(
        RantError::RuntimeError {
            error_type: RuntimeErrorType::ArgumentMismatch,
            description: Some(description),
        },
    )
}

/// The first `count` values, and a list of the others.
fn split_values(values: &Vec<RantValue>, count: usize) -> (parts: (Vec<RantValue>, RantList))
    requires
        count <= values@.len(),
    ensures
        value_views(parts.0@) == value_views(values@).take(count as int),
        parts.1@ == value_views(values@).skip(count as int),
{
    let mut first: Vec<RantValue> = Vec::new();
    let mut rest = RantList::new();
    let mut i: usize = 0;
    while i < values.len()
        invariant
            i <= values@.len(),
            count <= values@.len(),
            first@.len() == if i < count {
                i as nat
            } else {
                count as nat
            },
            forall|j: int| 0 <= j < first@.len() ==> #[trigger] first@[j] == values@[j],
            rest@ == if i < count {
                Seq::empty()
            } else {
                value_views(values@).subrange(count as int, i as int)
            },
        decreases values@.len() - i,
    {
        let value = values[i].clone();
        if i < count {
            first.push(value);
            assert(i + 1 == count ==> rest@ =~= value_views(values@).subrange(
                count as int,
                i + 1,
            ));
        } else {
            rest.push(value);
            assert(rest@ =~= value_views(values@).subrange(count as int, i + 1));
        }
        i = i + 1;
    }
    assert(value_views(first@) =~= value_views(values@).take(count as int));
    assert(rest@ =~= value_views(values@).skip(count as int));
    (first, rest)
}

/// The values, the last one first.
pub(crate) fn reversed(values: &Vec<RantValue>) -> (result: Vec<RantValue>)
    ensures
        value_views(result@) == value_views(values@).reverse(),
{
    let mut result: Vec<RantValue> = Vec::new();
    let len: usize = values.len();
    let mut i: usize = 0;
    while i < len
        invariant
            i <= len,
            len == values@.len(),
            result@.len() == i,
            forall|j: int| 0 <= j < i ==> (#[trigger] result@[j])@ == values@[len - 1 - j]@,
        decreases len - i,
    {
        result.push(values[len - 1 - i].clone());
        i = i + 1;
    }
    assert(value_views(result@) =~= value_views(values@).reverse());
    result
}

impl VM {
    /// The arguments as the function takes them.
    fn fit_args(&mut self, func: &Rc<RantFunction>, args: Vec<RantValue>) -> (result: Result<
        Vec<RantValue>,
        Halt,
    >)
        requires
            old(self).wf(),
        ensures
            final(self).continues(old(self)),
            (values_result(result), final(self).machine()) == fit_args(
                old(self).machine(),
                *func,
                value_views(args@),
            ),
    {
        let argc: usize = args.len();
        // Verify the args fit the signature
        if func.is_variadic() {
            if argc < func.min_arg_count {
                return Err(mismatch("at least ", func.min_arg_count, argc));
            }
            // Condense args to turn variadic args into one arg
            // Only do this for user functions, since native functions take care of variadic
            // condensation already
            if func.is_native() {
                return Ok(args);
            }
            if func.vararg_start_index > argc {
                return Err(Halt::Stuck);
            }
            let (mut condensed_args, varargs) = split_values(&args, func.vararg_start_index);
            let ghost first = value_views(condensed_args@);
            let vararg = self.add_list(varargs);
            condensed_args.push(vararg);
            assert(value_views(condensed_args@) =~= first.push(vararg@));
            Ok(condensed_args)
        } else {
            if argc < func.min_arg_count || argc > func.params.len() {
                proof {
                    reveal_strlit("");
                    assert(""@ =~= Seq::empty());
                }
                return Err(mismatch("", func.min_arg_count, argc));
            }
            Ok(args)
        }
    }

    /// Calls a function.
    fn call(&mut self, func: Rc<RantFunction>, args: Vec<RantValue>, flag: PrintFlag) -> (progress:
        Progress)
        requires
            old(self).wf(),
            old(self).machine().stack.frames.len() > 0,
        ensures
            final(self).continues(old(self)),
            (progress@, final(self).machine()) == call(
                old(self).machine(),
                func,
                value_views(args@),
                flag,
            ),
    {
        match self.fit_args(&func, args) {
            Ok(args) => match &func.body {
                RantFunctionInterface::Foreign(_) => Progress::NativeCall {
                    func: Rc::clone(&func),
                    args,
                },
                RantFunctionInterface::User(user_func) => {
                    // Push the function onto the call stack
                    let result = self.push_block_frame(
                        user_func,
                        false,
                        &func.params,
                        &args,
                        flag,
                    );
                    settle(result)
                },
            },
            Err(halt) => settle(Err(halt)),
        }
    }

    /// Evaluates the next argument of a call, or calls the function if there is none.
    pub(crate) fn invoke(
        &mut self,
        arg_exprs: Rc<Vec<Rc<Sequence>>>,
        eval_count: usize,
        flag: PrintFlag,
    ) -> (progress: Progress)
        requires
            old(self).wf(),
            old(self).machine().stack.frames.len() > 0,
        ensures
            final(self).continues(old(self)),
            (progress@, final(self).machine()) == invoke(
                old(self).machine(),
                arg_exprs,
                eval_count as nat,
                flag,
            ),
    {
        // First, evaluate all arguments in order
        if eval_count < arg_exprs.len() {
            let arg_expr = Rc::clone(&arg_exprs[eval_count]);
            self.push_intent_front(
                Intent::Invoke { arg_exprs, eval_count: eval_count + 1, flag },
            );
            let result = self.push_expr(arg_expr);
            return settle(result);
        }
        // Pop the evaluated args off the stack
        let args = match self.pop_vals(arg_exprs.len()) {
            // The last argument was on top
            Ok(args) => reversed(&args),
            Err(halt) => {
                return settle(Err(halt));
            },
        };
        // Pop the function and make sure it's callable
        match self.pop_val() {
            Ok(RantValue::Function(func)) => self.call(func, args, flag),
            Ok(other) => {
                let mut description = "cannot invoke '".to_owned();
                description.append(other.type_label());
                description.append("' value");
                settle(
                    Err(
                        Halt::Error(
                            RantError::RuntimeError {
                                error_type: RuntimeErrorType::CannotInvokeValue,
                                description: Some(description),
                            },
                        ),
                    ),
                )
            },
            Err(halt) => settle(Err(halt)),
        }
    }
}

} // verus!

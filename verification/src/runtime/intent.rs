//! What a stack frame is to do before it goes on with its sequence.

use std::rc::Rc;
use vstd::prelude::*;
use crate::collections::{MapView, RantList, RantMap};
use crate::compiler::lang::{Identifier, PrintFlag};
use crate::runtime::program::{Block, MapKeyExpr, Sequence, VarAccessPath};
use crate::value::{RantValue, ValueView};

verus! {

/// RSTs can assign intents to the current stack frame
/// to override its usual behavior next time it's active.
#[derive(Debug)]
#[allow(inconsistent_fields)]
pub enum Intent {
    /// Take the pending output from last frame and print it.
    PrintLastOutput,
    /// Pop a value off the stack and assign it to an existing variable.
    SetVar { vname: Identifier },
    /// Pop a value off the stack and assign it to a new variable.
    DefVar { vname: Identifier },
    /// Pop a block from `pending_exprs` and evaluate it. If there are no expressions left, switch
    /// intent to `GetValue`.
    BuildDynamicGetter {
        path: Rc<VarAccessPath>,
        dynamic_key_count: usize,
        pending_exprs: Vec<Rc<Block>>,
        override_print: bool,
    },
    /// Pop `dynamic_key_count` values off the stack and use them for expression fields in a
    /// getter.
    GetValue { path: Rc<VarAccessPath>, dynamic_key_count: usize, override_print: bool },
    /// Pop a block from `pending_exprs` and evaluate it. If there are no expressions left, switch
    /// intent to `SetValue`.
    BuildDynamicSetter {
        path: Rc<VarAccessPath>,
        auto_def: bool,
        expr_count: usize,
        pending_exprs: Vec<Rc<Block>>,
        val_source: SetterValueSource,
    },
    /// Pop `expr_count` values off the stack and use them for expression fields in a setter.
    SetValue { path: Rc<VarAccessPath>, auto_def: bool, expr_count: usize },
    /// Evaluate `arg_exprs` in order, then pop the argument values off the stack, pop a function
    /// off the stack, and pass the arguments to the function.
    Invoke { arg_exprs: Rc<Vec<Rc<Sequence>>>, eval_count: usize, flag: PrintFlag },
    /// Pop value from stack and add it to a list. If `index` is out of range, print the list.
    BuildList { init: Rc<Vec<Rc<Sequence>>>, index: usize, list: RantList },
    /// Pop value and optional key from stack and add them to a map. If `pair_index` is out of
    /// range, print the map.
    BuildMap { init: Rc<Vec<(MapKeyExpr, Rc<Sequence>)>>, pair_index: usize, map: RantMap },
    /// Have the host do something, by the number that the host knows it by.
    RuntimeCall(usize),
}

/// Where the value that a setter writes comes from.
#[derive(Debug)]
pub enum SetterValueSource {
    FromExpression(Rc<Sequence>),
    FromValue(RantValue),
}

pub enum SourceView {
    FromExpression(Rc<Sequence>),
    FromValue(ValueView),
}

impl View for SetterValueSource {
    type V = SourceView;

    open spec fn view(&self) -> SourceView {
        match self {
            SetterValueSource::FromExpression(expr) => SourceView::FromExpression(*expr),
            SetterValueSource::FromValue(value) => SourceView::FromValue(value@),
        }
    }
}

/// The view of an [`Intent`].
#[allow(inconsistent_fields)]
pub enum IntentView {
    PrintLastOutput,
    SetVar { vname: Seq<char> },
    DefVar { vname: Seq<char> },
    BuildDynamicGetter {
        path: Rc<VarAccessPath>,
        dynamic_key_count: nat,
        pending_exprs: Seq<Rc<Block>>,
        override_print: bool,
    },
    GetValue { path: Rc<VarAccessPath>, dynamic_key_count: nat, override_print: bool },
    BuildDynamicSetter {
        path: Rc<VarAccessPath>,
        auto_def: bool,
        expr_count: nat,
        pending_exprs: Seq<Rc<Block>>,
        val_source: SourceView,
    },
    SetValue { path: Rc<VarAccessPath>, auto_def: bool, expr_count: nat },
    Invoke { arg_exprs: Rc<Vec<Rc<Sequence>>>, eval_count: nat, flag: PrintFlag },
    BuildList { init: Rc<Vec<Rc<Sequence>>>, index: nat, list: Seq<ValueView> },
    BuildMap { init: Rc<Vec<(MapKeyExpr, Rc<Sequence>)>>, pair_index: nat, map: MapView },
    RuntimeCall(usize),
}

impl View for Intent {
    type V = IntentView;

    open spec fn view(&self) -> IntentView {
        match self {
            Intent::PrintLastOutput => IntentView::PrintLastOutput,
            Intent::SetVar { vname } => IntentView::SetVar { vname: vname@ },
            Intent::DefVar { vname } => IntentView::DefVar { vname: vname@ },
            Intent::BuildDynamicGetter {
                path,
                dynamic_key_count,
                pending_exprs,
                override_print,
            } => IntentView::BuildDynamicGetter {
                path: *path,
                dynamic_key_count: *dynamic_key_count as nat,
                pending_exprs: pending_exprs@,
                override_print: *override_print,
            },
            Intent::GetValue {
                path,
                dynamic_key_count,
                override_print,
            } => IntentView::GetValue {
                path: *path,
                dynamic_key_count: *dynamic_key_count as nat,
                override_print: *override_print,
            },
            Intent::BuildDynamicSetter {
                path,
                auto_def,
                expr_count,
                pending_exprs,
                val_source,
            } => IntentView::BuildDynamicSetter {
                path: *path,
                auto_def: *auto_def,
                expr_count: *expr_count as nat,
                pending_exprs: pending_exprs@,
                val_source: val_source@,
            },
            Intent::SetValue { path, auto_def, expr_count } => IntentView::SetValue {
                path: *path,
                auto_def: *auto_def,
                expr_count: *expr_count as nat,
            },
            Intent::Invoke { arg_exprs, eval_count, flag } => IntentView::Invoke {
                arg_exprs: *arg_exprs,
                eval_count: *eval_count as nat,
                flag: *flag,
            },
            Intent::BuildList { init, index, list } => IntentView::BuildList {
                init: *init,
                index: *index as nat,
                list: list@,
            },
            Intent::BuildMap { init, pair_index, map } => IntentView::BuildMap {
                init: *init,
                pair_index: *pair_index as nat,
                map: map@,
            },
            Intent::RuntimeCall(call) => IntentView::RuntimeCall(*call),
        }
    }
}

} // verus!

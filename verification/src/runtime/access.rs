//! The virtual machine: reading and writing what access paths lead to.

use std::rc::Rc;
use vstd::prelude::*;
use crate::runtime::calls::reversed;
use crate::runtime::error::{
    convert_index_result, convert_index_set_result, convert_key_result, convert_key_set_result,
};
use crate::runtime::machine::{
    follow, get_value, keys_before, root_name, select, selector, set_value, write_to, HaltView,
    Machine, SelectorView,
};
use crate::runtime::program::{expressions, VarAccessComponent, VarAccessPath};
use crate::runtime::vm::{unit_result, value_result, Halt, VM};
use crate::value::{value_views, RantValue, ValueView};

verus! {

/// What says where in a value to read or write.
#[derive(Debug)]
pub(crate) enum Selector {
    Index(i64),
    Key(String),
}

pub(crate) open spec fn selector_result(result: Result<Selector, Halt>) -> Result<
    SelectorView,
    HaltView,
> {
    match result {
        Ok(Selector::Index(index)) => Ok(SelectorView::Index(index)),
        Ok(Selector::Key(key)) => Ok(SelectorView::Key(key@)),
        Err(halt) => Err(halt@),
    }
}

pub(crate) open spec fn name_result(result: Result<String, Halt>) -> Result<Seq<char>, HaltView> {
    match result {
        Ok(name) => Ok(name@),
        Err(halt) => Err(halt@),
    }
}

/// The selector that a step of a path stands for.
fn make_selector(part: &VarAccessComponent, keys: &Vec<RantValue>, used: usize) -> (result: Result<
    Selector,
    Halt,
>)
    ensures
        selector_result(result) == selector(*part, value_views(keys@), used as nat),
{
    match part {
        // Static key
        VarAccessComponent::Name(key) => Ok(Selector::Key(key.name.clone())),
        // Index
        VarAccessComponent::Index(index) => Ok(Selector::Index(*index)),
        // Dynamic key
        VarAccessComponent::Expression(_) => {
            if used < keys.len() {
                match &keys[used] {
                    RantValue::Integer(index) => Ok(Selector::Index(*index)),
                    key_val => Ok(Selector::Key(key_val.to_text())),
                }
            } else {
                Err(Halt::Stuck)
            }
        },
    }
}

/// The variable that the first step of a path names.
fn find_root_name(path: &VarAccessPath, keys: &Vec<RantValue>) -> (result: Result<String, Halt>)
    ensures
        name_result(result) == root_name(*path, value_views(keys@)),
{
    if path.parts.len() == 0 {
        return Err(Halt::Stuck);
    }
    match &path.parts[0] {
        VarAccessComponent::Name(vname) => Ok(vname.name.clone()),
        VarAccessComponent::Index(_) => Err(Halt::Stuck),
        VarAccessComponent::Expression(_) => {
            if keys.len() > 0 {
                Ok(keys[0].to_text())
            } else {
                Err(Halt::Stuck)
            }
        },
    }
}

/// How many of the first `count` steps of a path are expressions.
fn count_keys(path: &VarAccessPath, count: usize) -> (keys: usize)
    requires
        count <= path.parts@.len(),
    ensures
        keys == keys_before(*path, count as int),
        keys <= count,
{
    let mut keys: usize = 0;
    let mut i: usize = 0;
    assert(path.parts@.take(0) =~= Seq::empty());
    while i < count
        invariant
            i <= count,
            count <= path.parts@.len(),
            keys <= i,
            keys == keys_before(*path, i as int),
        decreases count - i,
    {
        assert(path.parts@.take(i + 1).drop_last() =~= path.parts@.take(i as int));
        if let VarAccessComponent::Expression(_) = &path.parts[i] {
            keys = keys + 1;
        }
        i = i + 1;
    }
    keys
}

impl VM {
    /// What is in a value at a selector.
    fn select(&self, value: &RantValue, selector: &Selector) -> (result: Result<RantValue, Halt>)
        ensures
            value_result(result) == select(
                self.machine().engine,
                value@,
                match *selector {
                    Selector::Index(index) => SelectorView::Index(index),
                    Selector::Key(key) => SelectorView::Key(key@),
                },
            ),
    {
        let converted = match selector {
            Selector::Index(index) => convert_index_result(self.get_by_index(value, *index)),
            Selector::Key(key) => convert_key_result(self.get_by_key(value, key.as_str())),
        };
        match converted {
            Ok(item) => Ok(item),
            Err(error) => Err(Halt::Error(error)),
        }
    }

    /// What the first `count` steps of a path lead to.
    fn follow(&self, path: &VarAccessPath, keys: &Vec<RantValue>, count: usize) -> (result: Result<
        RantValue,
        Halt,
    >)
        requires
            count <= path.parts@.len(),
        ensures
            value_result(result) == follow(
                self.machine(),
                *path,
                value_views(keys@),
                count as int,
            ),
    {
        let ghost views = value_views(keys@);
        proof {
            if let Err(halt) = follow(self.machine(), *path, views, 1) {
                if count > 1 {
                    lemma_follow_fails(self.machine(), *path, views, 1, count as int, halt);
                }
            }
        }
        let name = find_root_name(path, keys)?;
        // Get the root variable
        let mut value = self.get_local(name.as_str())?;
        // Evaluate the rest of the path
        let mut i: usize = 1;
        while i < count
            invariant
                1 <= i,
                i <= count || i == 1,
                count <= path.parts@.len(),
                views == value_views(keys@),
                Ok::<_, HaltView>(value@) == follow(self.machine(), *path, views, i as int),
            decreases count - i,
        {
            let used = count_keys(path, i);
            match make_selector(&path.parts[i], keys, used) {
                Ok(selector) => match self.select(&value, &selector) {
                    Ok(item) => {
                        value = item;
                    },
                    Err(halt) => {
                        proof {
                            lemma_follow_fails(
                                self.machine(),
                                *path,
                                views,
                                i + 1,
                                count as int,
                                halt@,
                            );
                        }
                        return Err(halt);
                    },
                },
                Err(halt) => {
                    proof {
                        lemma_follow_fails(
                            self.machine(),
                            *path,
                            views,
                            i + 1,
                            count as int,
                            halt@,
                        );
                    }
                    return Err(halt);
                },
            }
            i = i + 1;
        }
        Ok(value)
    }

    /// Reads what a path leads to, and prints it or leaves it on the value stack.
    pub(crate) fn get_value(
        &mut self,
        path: Rc<VarAccessPath>,
        dynamic_key_count: usize,
        override_print: bool,
    ) -> (result: Result<(), Halt>)
        requires
            old(self).wf(),
            old(self).machine().stack.frames.len() > 0,
        ensures
            final(self).continues(old(self)),
            (unit_result(result), final(self).machine()) == get_value(
                old(self).machine(),
                *path,
                dynamic_key_count as nat,
                override_print,
            ),
    {
        // Gather evaluated dynamic keys from stack
        let dynamic_keys = self.pop_vals(dynamic_key_count)?;
        let getter_value = self.follow(&path, &dynamic_keys, path.parts.len())?;
        if override_print {
            self.push_val(getter_value)?;
            Ok(())
        } else {
            self.write_value(getter_value);
            Ok(())
        }
    }

    /// Writes to the place that a path leads to.
    fn write_to(
        &mut self,
        path: &VarAccessPath,
        auto_def: bool,
        dynamic_keys: &Vec<RantValue>,
        value: RantValue,
    ) -> (result: Result<(), Halt>)
        requires
            old(self).wf(),
        ensures
            final(self).continues(old(self)),
            (unit_result(result), final(self).machine()) == write_to(
                old(self).machine(),
                *path,
                auto_def,
                value_views(dynamic_keys@),
                value@,
            ),
    {
        let len: usize = path.parts.len();
        if len <= 1 {
            // The place is a variable
            let name = find_root_name(path, dynamic_keys)?;
            if auto_def {
                self.def_local(name.as_str(), value);
                Ok(())
            } else {
                self.set_local(name.as_str(), value)
            }
        } else {
            // The place is inside what all steps but the last lead to
            let target = self.follow(path, dynamic_keys, len - 1)?;
            let used = count_keys(path, len - 1);
            let selector = make_selector(&path.parts[len - 1], dynamic_keys, used)?;
            let converted = match &selector {
                Selector::Index(index) => convert_index_set_result(
                    self.set_by_index(&target, *index, value),
                ),
                Selector::Key(key) => convert_key_set_result(
                    self.set_by_key(&target, key.as_str(), value),
                ),
            };
            match converted {
                Ok(_) => Ok(()),
                Err(error) => Err(Halt::Error(error)),
            }
        }
    }

    /// Takes a value and dynamic keys off the value stack and writes the value.
    pub(crate) fn set_value(
        &mut self,
        path: Rc<VarAccessPath>,
        auto_def: bool,
        dynamic_key_count: usize,
    ) -> (result: Result<(), Halt>)
        requires
            old(self).wf(),
        ensures
            final(self).continues(old(self)),
            (unit_result(result), final(self).machine()) == set_value(
                old(self).machine(),
                *path,
                auto_def,
                dynamic_key_count as nat,
            ),
    {
        // The setter value should be at the top of the value stack, so pop that first
        let setter_value = self.pop_val()?;
        // Gather evaluated dynamic keys from stack
        let popped_keys = self.pop_vals(dynamic_key_count)?;
        // That of the last expression was on top
        let dynamic_keys = reversed(&popped_keys);
        self.write_to(&path, auto_def, &dynamic_keys, setter_value)
    }
}

/// Where a path fails, every longer one fails.
proof fn lemma_follow_fails(
    m: Machine,
    path: VarAccessPath,
    keys: Seq<ValueView>,
    short: int,
    long: int,
    halt: HaltView,
)
    requires
        short <= long,
        follow(m, path, keys, short) == Err::<ValueView, _>(halt),
    ensures
        follow(m, path, keys, long) == Err::<ValueView, _>(halt),
    decreases long,
{
    if short < long && long > 1 {
        lemma_follow_fails(m, path, keys, short, long - 1, halt);
    }
}

} // verus!

//! The virtual machine: building getters, setters, lists and maps.

use std::rc::Rc;
use vstd::prelude::*;
use crate::collections::{MapView, RantList, RantMap};
use crate::runtime::intent::{Intent, SetterValueSource};
use crate::runtime::machine::{
    build_dynamic_getter, build_dynamic_setter, build_list, build_map, last_key, provide,
    with_last_pair, HaltView,
};
use crate::runtime::program::{Block, MapKeyExpr, Sequence, VarAccessPath};
use crate::runtime::vm::{unit_result, Halt, VM};

verus! {

pub(crate) open spec fn key_result(result: Result<String, Halt>) -> Result<Seq<char>, HaltView> {
    match result {
        Ok(key) => Ok(key@),
        Err(halt) => Err(halt@),
    }
}

pub(crate) open spec fn map_result(result: Result<RantMap, Halt>) -> Result<MapView, HaltView> {
    match result {
        Ok(map) => Ok(map@),
        Err(halt) => Err(halt@),
    }
}

impl VM {
    /// Evaluates the next dynamic key of a getter, or runs the getter if there is none.
    pub(crate) fn build_dynamic_getter(
        &mut self,
        path: Rc<VarAccessPath>,
        dynamic_key_count: usize,
        pending_exprs: Vec<Rc<Block>>,
        override_print: bool,
    ) -> (result: Result<(), Halt>)
        requires
            old(self).wf(),
            old(self).machine().stack.frames.len() > 0,
        ensures
            final(self).continues(old(self)),
            (unit_result(result), final(self).machine()) == build_dynamic_getter(
                old(self).machine(),
                path,
                dynamic_key_count as nat,
                pending_exprs@,
                override_print,
            ),
    {
        let mut rest = pending_exprs;
        match rest.pop() {
            Some(block) => {
                // Set next intent based on remaining expressions in getter
                if rest.len() == 0 {
                    self.push_intent_front(
                        Intent::GetValue { path, dynamic_key_count, override_print },
                    );
                } else {
                    self.push_intent_front(
                        Intent::BuildDynamicGetter {
                            path,
                            dynamic_key_count,
                            pending_exprs: rest,
                            override_print,
                        },
                    );
                }
                self.push_block_expr(&block)
            },
            None => {
                self.push_intent_front(
                    Intent::GetValue { path, dynamic_key_count, override_print },
                );
                Ok(())
            },
        }
    }

    /// Provides the value that a setter writes.
    fn provide(&mut self, val_source: SetterValueSource) -> (result: Result<(), Halt>)
        requires
            old(self).wf(),
        ensures
            final(self).continues(old(self)),
            (unit_result(result), final(self).machine()) == provide(
                old(self).machine(),
                val_source@,
            ),
    {
        match val_source {
            SetterValueSource::FromExpression(expr) => self.push_expr(expr),
            SetterValueSource::FromValue(val) => {
                self.push_val(val)?;
                Ok(())
            },
        }
    }

    /// Evaluates the next dynamic key of a setter, and the value once there are no more.
    pub(crate) fn build_dynamic_setter(
        &mut self,
        path: Rc<VarAccessPath>,
        auto_def: bool,
        expr_count: usize,
        pending_exprs: Vec<Rc<Block>>,
        val_source: SetterValueSource,
    ) -> (result: Result<(), Halt>)
        requires
            old(self).wf(),
            old(self).machine().stack.frames.len() > 0,
        ensures
            final(self).continues(old(self)),
            (unit_result(result), final(self).machine()) == build_dynamic_setter(
                old(self).machine(),
                path,
                auto_def,
                expr_count as nat,
                pending_exprs@,
                val_source@,
            ),
    {
        let mut rest = pending_exprs;
        match rest.pop() {
            Some(block) => {
                self.push_intent_front(
                    Intent::BuildDynamicSetter {
                        path,
                        auto_def,
                        expr_count,
                        pending_exprs: rest,
                        val_source,
                    },
                );
                self.push_block_expr(&block)
            },
            None => {
                // Set value once this frame is active again
                self.push_intent_front(Intent::SetValue { path, auto_def, expr_count });
                // Prepare setter value
                self.provide(val_source)
            },
        }
    }

    /// Adds the value that was evaluated last to a list, and evaluates the next one.
    pub(crate) fn build_list(
        &mut self,
        init: Rc<Vec<Rc<Sequence>>>,
        index: usize,
        list: RantList,
    ) -> (result: Result<(), Halt>)
        requires
            old(self).wf(),
            old(self).machine().stack.frames.len() > 0,
        ensures
            final(self).continues(old(self)),
            (unit_result(result), final(self).machine()) == build_list(
                old(self).machine(),
                init,
                index as nat,
                list@,
            ),
    {
        let mut list = list;
        // Add latest evaluated value to list
        if index > 0 {
            let value = self.pop_val()?;
            list.push(value);
        }
        // Check if the list is complete
        if index >= init.len() {
            let value = self.add_list(list);
            self.write_value(value);
            Ok(())
        } else {
            // Continue list creation
            let val_expr = Rc::clone(&init[index]);
            self.push_intent_front(Intent::BuildList { init, index: index + 1, list });
            self.push_expr(val_expr)
        }
    }

    /// The key of the pair that was evaluated last.
    fn last_key(&mut self, key: &MapKeyExpr) -> (result: Result<String, Halt>)
        requires
            old(self).wf(),
        ensures
            final(self).continues(old(self)),
            (key_result(result), final(self).machine()) == last_key(old(self).machine(), *key),
    {
        match key {
            // If the key is dynamic, there are two values to pop
            MapKeyExpr::Dynamic(_) => {
                let value = self.pop_val()?;
                Ok(value.to_text())
            },
            MapKeyExpr::Static(key) => Ok(key.clone()),
        }
    }

    /// Adds the pair that was evaluated last to a map.
    fn with_last_pair(
        &mut self,
        init: &Rc<Vec<(MapKeyExpr, Rc<Sequence>)>>,
        pair_index: usize,
        map: RantMap,
    ) -> (result: Result<RantMap, Halt>)
        requires
            old(self).wf(),
        ensures
            final(self).continues(old(self)),
            (map_result(result), final(self).machine()) == with_last_pair(
                old(self).machine(),
                *init,
                pair_index as nat,
                map@,
            ),
    {
        let mut map = map;
        if pair_index == 0 {
            return Ok(map);
        }
        if pair_index > init.len() {
            return Err(Halt::Stuck);
        }
        let key = self.last_key(&init[pair_index - 1].0)?;
        let val = self.pop_val()?;
        map.raw_set(key.as_str(), val);
        Ok(map)
    }

    /// Adds the pair that was evaluated last to a map, and evaluates the next one.
    pub(crate) fn build_map(
        &mut self,
        init: Rc<Vec<(MapKeyExpr, Rc<Sequence>)>>,
        pair_index: usize,
        map: RantMap,
    ) -> (result: Result<(), Halt>)
        requires
            old(self).wf(),
            old(self).machine().stack.frames.len() > 0,
        ensures
            final(self).continues(old(self)),
            (unit_result(result), final(self).machine()) == build_map(
                old(self).machine(),
                init,
                pair_index as nat,
                map@,
            ),
    {
        // Add latest evaluated pair to map
        let map = self.with_last_pair(&init, pair_index, map)?;
        // Check if the map is completed
        if pair_index >= init.len() {
            let value = self.add_map(map);
            self.write_value(value);
            Ok(())
        } else {
            // Continue map creation
            let val_expr = Rc::clone(&init[pair_index].1);
            self.push_intent_front(
                Intent::BuildMap { init: Rc::clone(&init), pair_index: pair_index + 1, map },
            );
            if let MapKeyExpr::Dynamic(key_expr_block) = &init[pair_index].0 {
                // Push dynamic key expression onto call stack
                self.push_block_expr(key_expr_block)?;
            }
            // Push value expression onto call stack
            self.push_expr(val_expr)
        }
    }
}

} // verus!

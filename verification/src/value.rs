//! Values.

use std::rc::Rc;
use vstd::prelude::*;
use crate::collections::{RantListRef, RantMapRef};
use crate::compiler::lang::Parameter;
use crate::compiler::lexer::{FloatView, RantFloat};
use crate::runtime::program::Block;
use crate::text::{push_signed_decimal, signed_decimal};

verus! {

/// What runs when a function is called.
#[derive(Debug)]
pub enum RantFunctionInterface {
    /// A function that the host provides, by the number that the host knows it by.
    Foreign(usize),
    /// A function of the program.
    User(Rc<Block>),
}

/// A function.
#[derive(Debug)]
pub struct RantFunction {
    pub body: RantFunctionInterface,
    pub params: Rc<Vec<Parameter>>,
    /// How many arguments the function demands.
    pub min_arg_count: usize,
    /// Where the variadic parameter stands; the number of parameters if there is none.
    pub vararg_start_index: usize,
}

impl RantFunction {
    pub open spec fn spec_is_variadic(&self) -> bool {
        self.vararg_start_index < self.params@.len()
    }

    pub fn is_variadic(&self) -> (variadic: bool)
        ensures
            variadic == self.spec_is_variadic(),
    {
        self.vararg_start_index < self.params.len()
    }

    pub fn is_native(&self) -> (native: bool)
        ensures
            native == (self.body is Foreign),
    {
        match &self.body {
            RantFunctionInterface::Foreign(_) => true,
            RantFunctionInterface::User(_) => false,
        }
    }
}

/// A value.
#[derive(Debug)]
pub enum RantValue {
    Empty,
    Integer(i64),
    Float(RantFloat),
    Boolean(bool),
    Text(String),
    Function(Rc<RantFunction>),
    List(RantListRef),
    MapRef(RantMapRef),
}

/// The view of a [`RantValue`].
pub enum ValueView {
    Empty,
    Integer(i64),
    Float(FloatView),
    Boolean(bool),
    Text(Seq<char>),
    Function(Rc<RantFunction>),
    List(RantListRef),
    MapRef(RantMapRef),
}

impl View for RantValue {
    type V = ValueView;

    open spec fn view(&self) -> ValueView {
        match self {
            RantValue::Empty => ValueView::Empty,
            RantValue::Integer(n) => ValueView::Integer(*n),
            RantValue::Float(n) => ValueView::Float(n@),
            RantValue::Boolean(b) => ValueView::Boolean(*b),
            RantValue::Text(s) => ValueView::Text(s@),
            RantValue::Function(f) => ValueView::Function(*f),
            RantValue::List(l) => ValueView::List(*l),
            RantValue::MapRef(m) => ValueView::MapRef(*m),
        }
    }
}

/// The views of a list of values.
pub open spec fn value_views(values: Seq<RantValue>) -> Seq<ValueView> {
    values.map_values(|value: RantValue| value@)
}

impl Clone for RantValue {
    fn clone(&self) -> (copy: Self)
        ensures
            copy == *self,
    {
        match self {
            RantValue::Empty => RantValue::Empty,
            RantValue::Integer(n) => RantValue::Integer(*n),
            RantValue::Float(n) => RantValue::Float(n.clone()),
            RantValue::Boolean(b) => RantValue::Boolean(*b),
            RantValue::Text(s) => RantValue::Text(s.clone()),
            RantValue::Function(f) => RantValue::Function(Rc::clone(f)),
            RantValue::List(l) => RantValue::List(*l),
            RantValue::MapRef(m) => RantValue::MapRef(*m),
        }
    }
}

impl Default for RantValue {
    fn default() -> (value: Self)
        ensures
            value@ == ValueView::Empty,
    {
        RantValue::Empty
    }
}

impl ValueView {
    /// The value as text.
    pub open spec fn text(self) -> Seq<char> {
        match self {
            ValueView::Empty => Seq::empty(),
            ValueView::Integer(n) => signed_decimal(n as int),
            ValueView::Float(n) => n.text,
            ValueView::Boolean(b) => if b {
                "true"@
            } else {
                "false"@
            },
            ValueView::Text(s) => s,
            ValueView::Function(_) => "[function]"@,
            ValueView::List(_) => "[list]"@,
            ValueView::MapRef(_) => "[map]"@,
        }
    }

    /// The name of the value's type.
    pub open spec fn type_text(self) -> Seq<char> {
        match self {
            ValueView::Empty => "empty"@,
            ValueView::Integer(_) => "integer"@,
            ValueView::Float(_) => "float"@,
            ValueView::Boolean(_) => "bool"@,
            ValueView::Text(_) => "string"@,
            ValueView::Function(_) => "function"@,
            ValueView::List(_) => "list"@,
            ValueView::MapRef(_) => "map"@,
        }
    }
}

impl RantValue {
    /// Whether the value can be called.
    pub fn is_callable(&self) -> (callable: bool)
        ensures
            callable == (self@ is Function),
    {
        match self {
            RantValue::Function(_) => true,
            _ => false,
        }
    }

    pub fn is_empty(&self) -> (empty: bool)
        ensures
            empty == (self@ is Empty),
    {
        match self {
            RantValue::Empty => true,
            _ => false,
        }
    }

    /// The name of the value's type.
    pub fn type_label(&self) -> (name: &'static str)
        ensures
            name@ == self@.type_text(),
    {
        match self {
            RantValue::Empty => "empty",
            RantValue::Integer(_) => "integer",
            RantValue::Float(_) => "float",
            RantValue::Boolean(_) => "bool",
            RantValue::Text(_) => "string",
            RantValue::Function(_) => "function",
            RantValue::List(_) => "list",
            RantValue::MapRef(_) => "map",
        }
    }

    /// The value as text.
    pub fn to_text(&self) -> (text: String)
        ensures
            text@ == self@.text(),
    {
        match self {
            RantValue::Empty => String::new(),
            RantValue::Integer(n) => {
                let mut text = String::new();
                push_signed_decimal(&mut text, *n);
                assert(text@ =~= signed_decimal(*n as int));
                text
            },
            RantValue::Float(n) => n.text.clone(),
            RantValue::Boolean(true) => "true".to_owned(),
            RantValue::Boolean(false) => "false".to_owned(),
            RantValue::Text(s) => s.clone(),
            RantValue::Function(_) => "[function]".to_owned(),
            RantValue::List(_) => "[list]".to_owned(),
            RantValue::MapRef(_) => "[map]".to_owned(),
        }
    }
}

/// A variable.
#[derive(Debug)]
pub enum RantVar {
    /// A variable that holds its value.
    ByVal(RantValue),
}

impl View for RantVar {
    type V = ValueView;

    open spec fn view(&self) -> ValueView {
        match self {
            RantVar::ByVal(value) => value@,
        }
    }
}

impl RantVar {
    /// Replaces the value of the variable.
    pub fn write(&mut self, val: RantValue)
        ensures
            final(self)@ == val@,
    {
        *self = RantVar::ByVal(val);
    }

    pub fn value_ref(&self) -> (value: &RantValue)
        ensures
            value@ == self@,
    {
        match self {
            RantVar::ByVal(value) => value,
        }
    }

    pub fn value_cloned(&self) -> (value: RantValue)
        ensures
            value@ == self@,
    {
        self.value_ref().clone()
    }
}

} // verus!

//! The programs that the runtime executes.

use std::rc::Rc;
use vstd::prelude::*;
use crate::compiler::lang::{Identifier, Parameter, PrintFlag, RantProgramInfo, Varity};
use crate::compiler::lexer::RantFloat;

verus! {

/// A program element.
#[derive(Debug)]
pub enum RST {
    Fragment(String),
    Whitespace(String),
    Integer(i64),
    Float(RantFloat),
    Boolean(bool),
    EmptyVal,
    ListInit(Rc<Vec<Rc<Sequence>>>),
    MapInit(Rc<Vec<(MapKeyExpr, Rc<Sequence>)>>),
    Block(Rc<Block>),
    VarDef(Identifier, Option<Rc<Sequence>>),
    VarGet(Rc<VarAccessPath>),
    VarSet(Rc<VarAccessPath>, Rc<Sequence>),
    FuncDef(FunctionDef),
    Closure(ClosureExpr),
    AnonFuncCall(AnonFunctionCall),
    FuncCall(FunctionCall),
}

/// A list of elements that run one after the other.
#[derive(Debug)]
pub struct Sequence {
    pub name: Option<String>,
    pub origin: Rc<RantProgramInfo>,
    pub elements: Vec<Rc<RST>>,
}

/// A choice between sequences.
#[derive(Debug)]
pub struct Block {
    pub flag: PrintFlag,
    pub elements: Vec<Rc<Sequence>>,
}

/// A step of a path to a variable or to something inside its value.
#[derive(Debug)]
pub enum VarAccessComponent {
    Name(Identifier),
    Index(i64),
    Expression(Rc<Block>),
}

/// A path to a variable or to something inside its value.
#[derive(Debug)]
pub struct VarAccessPath {
    pub parts: Vec<VarAccessComponent>,
}

/// The key of a pair in a map initializer.
#[derive(Debug)]
pub enum MapKeyExpr {
    Static(String),
    Dynamic(Rc<Block>),
}

#[derive(Debug)]
pub struct FunctionDef {
    pub id: Rc<VarAccessPath>,
    pub body: Rc<Block>,
    pub params: Rc<Vec<Parameter>>,
    pub capture_vars: Rc<Vec<Identifier>>,
}

#[derive(Debug)]
pub struct ClosureExpr {
    pub capture_vars: Rc<Vec<Identifier>>,
    pub expr: Rc<Block>,
    pub params: Rc<Vec<Parameter>>,
}

#[derive(Debug)]
pub struct AnonFunctionCall {
    pub expr: Rc<Sequence>,
    pub args: Rc<Vec<Rc<Sequence>>>,
    pub flag: PrintFlag,
}

#[derive(Debug)]
pub struct FunctionCall {
    pub id: Rc<VarAccessPath>,
    pub arguments: Rc<Vec<Rc<Sequence>>>,
    pub flag: PrintFlag,
}

/// A program.
#[derive(Debug)]
pub struct RantProgram {
    pub root: Rc<Sequence>,
}

/// The expressions among the steps of a path, in order.
pub open spec fn expressions(parts: Seq<VarAccessComponent>) -> Seq<Rc<Block>>
    decreases parts.len(),
{
    if parts.len() == 0 {
        Seq::empty()
    } else {
        match parts.last() {
            VarAccessComponent::Expression(block) => expressions(parts.drop_last()).push(block),
            _ => expressions(parts.drop_last()),
        }
    }
}

impl VarAccessPath {
    /// The expressions in the path, in order.
    pub fn dynamic_keys(&self) -> (keys: Vec<Rc<Block>>)
        ensures
            keys@ == expressions(self.parts@),
    {
        let mut keys: Vec<Rc<Block>> = Vec::new();
        let mut i: usize = 0;
        assert(self.parts@.take(0) =~= Seq::empty());
        while i < self.parts.len()
            invariant
                i <= self.parts@.len(),
                keys@ == expressions(self.parts@.take(i as int)),
            decreases self.parts@.len() - i,
        {
            proof {
                assert(self.parts@.take(i + 1).drop_last() =~= self.parts@.take(i as int));
            }
            if let VarAccessComponent::Expression(block) = &self.parts[i] {
                keys.push(Rc::clone(block));
            }
            i = i + 1;
        }
        assert(self.parts@.take(i as int) =~= self.parts@);
        keys
    }
}

/// A later flag goes before an earlier one.
pub open spec fn prevailing(prev: PrintFlag, next: PrintFlag) -> PrintFlag {
    if next == PrintFlag::Plain {
        prev
    } else {
        next
    }
}

impl PrintFlag {
    /// The flag that takes effect where `next` comes after `prev`.
    pub fn prioritize(prev: PrintFlag, next: PrintFlag) -> (flag: PrintFlag)
        ensures
            flag == prevailing(prev, next),
    {
        match next {
            PrintFlag::Plain => prev,
            _ => next,
        }
    }

    pub fn is_sink(self) -> (sink: bool)
        ensures
            sink == (self == PrintFlag::Sink),
    {
        match self {
            PrintFlag::Sink => true,
            _ => false,
        }
    }
}

impl Parameter {
    pub fn is_required(&self) -> (required: bool)
        ensures
            required == required_varity(self.varity),
    {
        match self.varity {
            Varity::Required
            | Varity::VariadicPlus => true,
            _ => false,
        }
    }
}

/// Whether a parameter demands an argument.
pub open spec fn required_varity(varity: Varity) -> bool {
    varity is Required || varity is VariadicPlus
}

/// How many parameters come before the first that demands no argument.
pub open spec fn required_count(params: Seq<Parameter>) -> nat
    decreases params.len(),
{
    if params.len() > 0 && required_varity(params[0].varity) {
        1 + required_count(params.drop_first())
    } else {
        0
    }
}

/// Where the first variadic parameter stands; the number of parameters if there is none.
pub open spec fn variadic_start(params: Seq<Parameter>) -> nat
    decreases params.len(),
{
    if params.len() > 0 && !params[0].varity.spec_is_variadic() {
        1 + variadic_start(params.drop_first())
    } else {
        0
    }
}

/// How many parameters come before the first that demands no argument.
pub fn count_required(params: &Vec<Parameter>) -> (count: usize)
    ensures
        count == required_count(params@),
{
    let mut i: usize = 0;
    assert(params@.skip(0) =~= params@);
    while i < params.len() && params[i].is_required()
        invariant
            i <= params@.len(),
            required_count(params@) == i + required_count(params@.skip(i as int)),
        decreases params@.len() - i,
    {
        assert(params@.skip(i as int).drop_first() =~= params@.skip(i + 1));
        i = i + 1;
    }
    i
}

/// Where the first variadic parameter stands.
pub fn find_variadic(params: &Vec<Parameter>) -> (index: usize)
    ensures
        index == variadic_start(params@),
{
    let mut i: usize = 0;
    assert(params@.skip(0) =~= params@);
    while i < params.len() && !params[i].varity.is_variadic()
        invariant
            i <= params@.len(),
            variadic_start(params@) == i + variadic_start(params@.skip(i as int)),
        decreases params@.len() - i,
    {
        assert(params@.skip(i as int).drop_first() =~= params@.skip(i + 1));
        i = i + 1;
    }
    i
}

} // verus!

//! The syntax tree that the parser builds.
//!
//! Each type has a mathematical counterpart, in which strings and vectors are sequences and
//! shared pointers are gone; `tree()` gives it.

use std::rc::Rc;
use vstd::prelude::*;
use crate::compiler::lexer::{FloatView, RantFloat};
use crate::text::{opt_text, push_signed_decimal, signed_decimal};

verus! {

/// Where a program element comes from.
#[derive(Debug)]
pub struct RantProgramInfo {
    pub name: Option<String>,
    pub path: Option<String>,
}

/// How a program element affects the printing of what surrounds it.
#[derive(Debug, Clone, Copy, PartialEq, Eq, Structural)]
pub enum PrintFlag {
    Plain,
    /// Treat the element as printing.
    Hint,
    /// Discard what the element prints.
    Sink,
}

/// A name of a variable, key or parameter.
#[derive(Debug)]
pub struct Identifier {
    pub name: String,
}

impl View for Identifier {
    type V = Seq<char>;

    open spec fn view(&self) -> Seq<char> {
        self.name@
    }
}

impl Clone for Identifier {
    fn clone(&self) -> (copy: Self)
        ensures
            copy == *self,
    {
        Identifier { name: self.name.clone() }
    }
}

impl Identifier {
    pub fn new(name: String) -> (id: Self)
        ensures
            id@ == name@,
            id.name == name,
    {
        Identifier { name }
    }

    pub fn as_str(&self) -> (name: &str)
        ensures
            name@ == self@,
    {
        self.name.as_str()
    }
}

/// Whether `c` may occur in an identifier.
pub open spec fn is_ident_char(c: char) -> bool {
    ||| 'a' <= c <= 'z'
    ||| 'A' <= c <= 'Z'
    ||| '0' <= c <= '9'
    ||| c == '_'
    ||| c == '-'
}

/// An identifier is a nonempty text of identifier characters that are not all digits.
pub open spec fn valid_ident(name: Seq<char>) -> bool {
    &&& forall|i: int| 0 <= i < name.len() ==> is_ident_char(#[trigger] name[i])
    &&& exists|i: int| 0 <= i < name.len() && !('0' <= #[trigger] name[i] <= '9')
}

/// Whether `name` is an identifier.
pub fn is_valid_ident(name: &str) -> (valid: bool)
    ensures
        valid == valid_ident(name@),
{
    let len: usize = name.unicode_len();
    let mut has_non_digit: bool = false;
    let mut i: usize = 0;
    while i < len
        invariant
            len == name@.len(),
            i <= len,
            forall|j: int| 0 <= j < i ==> is_ident_char(#[trigger] name@[j]),
            has_non_digit == exists|j: int| 0 <= j < i && !('0' <= #[trigger] name@[j] <= '9'),
        decreases len - i,
    {
        let c = name.get_char(i);
        let is_digit = '0' <= c && c <= '9';
        if !(is_digit || ('a' <= c && c <= 'z') || ('A' <= c && c <= 'Z') || c == '_' || c == '-') {
            assert(!is_ident_char(name@[i as int]));
            return false;
        }
        if !is_digit {
            assert(!('0' <= name@[i as int] <= '9'));
            has_non_digit = true;
        }
        i = i + 1;
    }
    has_non_digit
}

/// How many arguments a parameter takes.
#[derive(Debug, Clone, Copy, PartialEq, Eq, Structural)]
pub enum Varity {
    Required,
    Optional,
    /// Any number of arguments.
    VariadicStar,
    /// At least one argument.
    VariadicPlus,
}

impl Varity {
    pub open spec fn spec_is_variadic(self) -> bool {
        self is VariadicStar || self is VariadicPlus
    }

    pub fn is_variadic(self) -> (variadic: bool)
        ensures
            variadic == self.spec_is_variadic(),
    {
        match self {
            Varity::VariadicStar | Varity::VariadicPlus => true,
            _ => false,
        }
    }

    /// Required parameters come first, then optional ones, then at most one variadic one, which
    /// demands no argument if an optional one precedes it.
    pub open spec fn valid_order(first: Varity, second: Varity) -> bool {
        match (first, second) {
            (Varity::Required, _) => true,
            (Varity::Optional, Varity::Optional) => true,
            (Varity::Optional, Varity::VariadicStar) => true,
            _ => false,
        }
    }

    /// Whether a parameter of the second kind may directly follow one of the first.
    pub fn is_valid_order(first: Varity, second: Varity) -> (valid: bool)
        ensures
            valid == Varity::valid_order(first, second),
    {
        match (first, second) {
            (Varity::Required, _) => true,
            (Varity::Optional, Varity::Optional) => true,
            (Varity::Optional, Varity::VariadicStar) => true,
            _ => false,
        }
    }

    pub open spec fn label(self) -> Seq<char> {
        match self {
            Varity::Required => "required"@,
            Varity::Optional => "optional"@,
            Varity::VariadicStar => "variadic*"@,
            Varity::VariadicPlus => "variadic+"@,
        }
    }

    /// The name of the varity in messages.
    pub fn to_text(self) -> (text: String)
        ensures
            text@ == self.label(),
    {
        match self {
            Varity::Required => "required".to_owned(),
            Varity::Optional => "optional".to_owned(),
            Varity::VariadicStar => "variadic*".to_owned(),
            Varity::VariadicPlus => "variadic+".to_owned(),
        }
    }
}

/// A function parameter.
#[derive(Debug)]
pub struct Parameter {
    pub name: Identifier,
    pub varity: Varity,
}

pub struct ParameterTree {
    pub name: Seq<char>,
    pub varity: Varity,
}

impl Parameter {
    pub open spec fn tree(&self) -> ParameterTree {
        ParameterTree { name: self.name@, varity: self.varity }
    }
}

/// Which scope an access path starts in.
#[derive(Debug, Clone, Copy, PartialEq, Eq, Structural)]
pub enum AccessPathKind {
    /// The current scope and those around it.
    Local,
    /// The scopes that many levels out.
    Descope(usize),
    /// The global scope only.
    ExplicitGlobal,
}

impl AccessPathKind {
    pub fn is_local(self) -> (local: bool)
        ensures
            local == (self is Local),
    {
        match self {
            AccessPathKind::Local => true,
            _ => false,
        }
    }
}

/// A step of an access path.
#[derive(Debug)]
pub enum AccessPathComponent {
    Name(Identifier),
    Index(i64),
    DynamicKey(Rc<Sequence>),
    AnonymousValue(Rc<Sequence>),
}

/// A path to a variable or to something inside its value.
#[derive(Debug)]
pub struct AccessPath {
    pub parts: Vec<AccessPathComponent>,
    pub kind: AccessPathKind,
}

/// The key of a pair in a map initializer.
#[derive(Debug)]
pub enum MapKeyExpr {
    Static(String),
    Dynamic(Rc<Sequence>),
}

#[derive(Debug)]
pub struct FunctionDef {
    pub id: Rc<AccessPath>,
    pub params: Rc<Vec<Parameter>>,
    pub capture_vars: Rc<Vec<Identifier>>,
    pub body: Rc<Sequence>,
}

#[derive(Debug)]
pub struct ClosureExpr {
    pub expr: Rc<Sequence>,
    pub params: Rc<Vec<Parameter>>,
    pub capture_vars: Rc<Vec<Identifier>>,
}

#[derive(Debug)]
pub struct FunctionCall {
    pub id: Rc<AccessPath>,
    pub arguments: Rc<Vec<Rc<Sequence>>>,
    pub flag: PrintFlag,
}

#[derive(Debug)]
pub struct AnonFunctionCall {
    pub expr: Rc<Sequence>,
    pub args: Rc<Vec<Rc<Sequence>>>,
    pub flag: PrintFlag,
}

/// A position in the source, kept for stack traces.
#[derive(Debug, Clone, Copy, PartialEq, Eq, Structural)]
pub enum DebugInfo {
    Location { line: usize, col: usize },
}

/// A node of the syntax tree.
#[derive(Debug)]
pub enum Rst {
    Fragment(String),
    Whitespace(String),
    Integer(i64),
    Float(RantFloat),
    Boolean(bool),
    EmptyVal,
    ListInit(Rc<Vec<Rc<Sequence>>>),
    MapInit(Rc<Vec<(MapKeyExpr, Rc<Sequence>)>>),
    Block(Block),
    BlockValue(Rc<Block>),
    VarDef(Identifier, AccessPathKind, Option<Rc<Sequence>>),
    VarGet(Rc<AccessPath>, Option<Rc<Sequence>>),
    VarSet(Rc<AccessPath>, Rc<Sequence>),
    FuncDef(FunctionDef),
    Closure(ClosureExpr),
    AnonFuncCall(AnonFunctionCall),
    FuncCall(FunctionCall),
    DebugCursor(DebugInfo),
}

/// A list of nodes that run one after the other.
#[derive(Debug)]
pub struct Sequence {
    pub name: Option<String>,
    pub origin: Rc<RantProgramInfo>,
    pub elements: Vec<Rc<Rst>>,
}

/// A choice between sequences.
#[derive(Debug)]
pub struct Block {
    pub flag: PrintFlag,
    pub elements: Vec<Rc<Sequence>>,
}

// The mathematical counterparts.

pub struct SequenceTree {
    pub name: Option<Seq<char>>,
    pub origin: Rc<RantProgramInfo>,
    pub elements: Seq<RstTree>,
}

pub struct BlockTree {
    pub flag: PrintFlag,
    pub elements: Seq<SequenceTree>,
}

pub enum ComponentTree {
    Name(Seq<char>),
    Index(i64),
    DynamicKey(SequenceTree),
    AnonymousValue(SequenceTree),
}

pub struct PathTree {
    pub parts: Seq<ComponentTree>,
    pub kind: AccessPathKind,
}

pub enum KeyTree {
    Static(Seq<char>),
    Dynamic(SequenceTree),
}

/// The variables that a function captures, as a set and with the length of the list that names
/// them: the list names none twice if and only if that length is the size of the set.
pub struct CaptureTree {
    pub names: Set<Seq<char>>,
    pub listed: nat,
}

pub enum RstTree {
    Fragment(Seq<char>),
    Whitespace(Seq<char>),
    Integer(i64),
    Float(FloatView),
    Boolean(bool),
    EmptyVal,
    ListInit(Seq<SequenceTree>),
    MapInit(Seq<(KeyTree, SequenceTree)>),
    Block(BlockTree),
    BlockValue(BlockTree),
    VarDef(Seq<char>, AccessPathKind, Option<SequenceTree>),
    VarGet(PathTree, Option<SequenceTree>),
    VarSet(PathTree, SequenceTree),
    FuncDef { id: PathTree, params: Seq<ParameterTree>, captures: CaptureTree, body: SequenceTree },
    Closure { params: Seq<ParameterTree>, captures: CaptureTree, expr: SequenceTree },
    AnonFuncCall { expr: SequenceTree, args: Seq<SequenceTree>, flag: PrintFlag },
    FuncCall { id: PathTree, args: Seq<SequenceTree>, flag: PrintFlag },
    DebugCursor(DebugInfo),
}

impl Sequence {
    pub open spec fn tree(&self) -> SequenceTree
        decreases self,
    {
        SequenceTree {
            name: opt_text(self.name),
            origin: self.origin,
            elements: node_trees(self.elements@),
        }
    }
}

impl Block {
    pub open spec fn tree(&self) -> BlockTree
        decreases self,
    {
        BlockTree { flag: self.flag, elements: sequence_trees(self.elements@) }
    }
}

impl AccessPathComponent {
    pub open spec fn tree(&self) -> ComponentTree
        decreases self,
    {
        match self {
            AccessPathComponent::Name(id) => ComponentTree::Name(id@),
            AccessPathComponent::Index(i) => ComponentTree::Index(*i),
            AccessPathComponent::DynamicKey(s) => ComponentTree::DynamicKey(s.tree()),
            AccessPathComponent::AnonymousValue(s) => ComponentTree::AnonymousValue(s.tree()),
        }
    }
}

impl AccessPath {
    pub open spec fn tree(&self) -> PathTree
        decreases self,
    {
        PathTree { parts: component_trees(self.parts@), kind: self.kind }
    }
}

impl MapKeyExpr {
    pub open spec fn tree(&self) -> KeyTree
        decreases self,
    {
        match self {
            MapKeyExpr::Static(s) => KeyTree::Static(s@),
            MapKeyExpr::Dynamic(s) => KeyTree::Dynamic(s.tree()),
        }
    }
}

impl Rst {
    pub open spec fn tree(&self) -> RstTree
        decreases self,
    {
        match self {
            Rst::Fragment(s) => RstTree::Fragment(s@),
            Rst::Whitespace(s) => RstTree::Whitespace(s@),
            Rst::Integer(n) => RstTree::Integer(*n),
            Rst::Float(n) => RstTree::Float(n@),
            Rst::Boolean(b) => RstTree::Boolean(*b),
            Rst::EmptyVal => RstTree::EmptyVal,
            Rst::ListInit(items) => RstTree::ListInit(sequence_trees(items@)),
            Rst::MapInit(pairs) => RstTree::MapInit(pair_trees(pairs@)),
            Rst::Block(block) => RstTree::Block(block.tree()),
            Rst::BlockValue(block) => RstTree::BlockValue(block.tree()),
            Rst::VarDef(id, kind, value) => RstTree::VarDef(
                id@,
                *kind,
                match value {
                    Some(s) => Some(s.tree()),
                    None => None,
                },
            ),
            Rst::VarGet(path, fallback) => RstTree::VarGet(
                path.tree(),
                match fallback {
                    Some(s) => Some(s.tree()),
                    None => None,
                },
            ),
            Rst::VarSet(path, value) => RstTree::VarSet(path.tree(), value.tree()),
            Rst::FuncDef(def) => RstTree::FuncDef {
                id: def.id.tree(),
                params: parameter_trees(def.params@),
                captures: capture_tree(def.capture_vars@),
                body: def.body.tree(),
            },
            Rst::Closure(def) => RstTree::Closure {
                params: parameter_trees(def.params@),
                captures: capture_tree(def.capture_vars@),
                expr: def.expr.tree(),
            },
            Rst::AnonFuncCall(call) => RstTree::AnonFuncCall {
                expr: call.expr.tree(),
                args: sequence_trees(call.args@),
                flag: call.flag,
            },
            Rst::FuncCall(call) => RstTree::FuncCall {
                id: call.id.tree(),
                args: sequence_trees(call.arguments@),
                flag: call.flag,
            },
            Rst::DebugCursor(info) => RstTree::DebugCursor(*info),
        }
    }
}

pub open spec fn node_trees(s: Seq<Rc<Rst>>) -> Seq<RstTree>
    decreases s,
{
    if s.len() == 0 {
        Seq::empty()
    } else {
        node_trees(s.drop_last()).push(s.last().tree())
    }
}

pub open spec fn sequence_trees(s: Seq<Rc<Sequence>>) -> Seq<SequenceTree>
    decreases s,
{
    if s.len() == 0 {
        Seq::empty()
    } else {
        sequence_trees(s.drop_last()).push(s.last().tree())
    }
}

pub open spec fn component_trees(s: Seq<AccessPathComponent>) -> Seq<ComponentTree>
    decreases s,
{
    if s.len() == 0 {
        Seq::empty()
    } else {
        component_trees(s.drop_last()).push(s.last().tree())
    }
}

pub open spec fn pair_trees(s: Seq<(MapKeyExpr, Rc<Sequence>)>) -> Seq<(KeyTree, SequenceTree)>
    decreases s,
{
    if s.len() == 0 {
        Seq::empty()
    } else {
        pair_trees(s.drop_last()).push((s.last().0.tree(), s.last().1.tree()))
    }
}

pub open spec fn parameter_trees(s: Seq<Parameter>) -> Seq<ParameterTree> {
    s.map_values(|p: Parameter| p.tree())
}

pub open spec fn capture_tree(s: Seq<Identifier>) -> CaptureTree {
    CaptureTree {
        names: s.map_values(|id: Identifier| id@).to_set(),
        listed: s.len(),
    }
}

/// The trees of a list of nodes, nodes added at the end last.
pub proof fn lemma_node_trees_push(s: Seq<Rc<Rst>>, x: Rc<Rst>)
    ensures
        node_trees(s.push(x)) == node_trees(s).push(x.tree()),
{
    assert(s.push(x).drop_last() =~= s);
}

pub proof fn lemma_sequence_trees_push(s: Seq<Rc<Sequence>>, x: Rc<Sequence>)
    ensures
        sequence_trees(s.push(x)) == sequence_trees(s).push(x.tree()),
{
    assert(s.push(x).drop_last() =~= s);
}

pub proof fn lemma_component_trees_push(s: Seq<AccessPathComponent>, x: AccessPathComponent)
    ensures
        component_trees(s.push(x)) == component_trees(s).push(x.tree()),
{
    assert(s.push(x).drop_last() =~= s);
}

pub proof fn lemma_pair_trees_push(
    s: Seq<(MapKeyExpr, Rc<Sequence>)>,
    x: (MapKeyExpr, Rc<Sequence>),
)
    ensures
        pair_trees(s.push(x)) == pair_trees(s).push((x.0.tree(), x.1.tree())),
{
    assert(s.push(x).drop_last() =~= s);
}

/// The trees of a list that starts with `x`.
pub proof fn lemma_sequence_trees_insert_first(s: Seq<Rc<Sequence>>, x: Rc<Sequence>)
    ensures
        sequence_trees(s.insert(0, x)) == seq![x.tree()] + sequence_trees(s),
    decreases s.len(),
{
    if s.len() == 0 {
        assert(s.insert(0, x).drop_last() =~= s);
        assert(sequence_trees(s.insert(0, x)) =~= seq![x.tree()] + sequence_trees(s));
    } else {
        assert(s.insert(0, x).drop_last() =~= s.drop_last().insert(0, x));
        lemma_sequence_trees_insert_first(s.drop_last(), x);
        assert(sequence_trees(s.insert(0, x)) =~= seq![x.tree()] + sequence_trees(s));
    }
}

pub proof fn lemma_component_trees_index(s: Seq<AccessPathComponent>, i: int)
    requires
        0 <= i < s.len(),
    ensures
        component_trees(s).len() == s.len(),
        component_trees(s)[i] == s[i].tree(),
    decreases s.len(),
{
    lemma_component_trees_len(s.drop_last());
    if i < s.len() - 1 {
        lemma_component_trees_index(s.drop_last(), i);
    }
}

pub proof fn lemma_component_trees_len(s: Seq<AccessPathComponent>)
    ensures
        component_trees(s).len() == s.len(),
    decreases s.len(),
{
    if s.len() > 0 {
        lemma_component_trees_len(s.drop_last());
    }
}

impl Sequence {
    /// An unnamed sequence of one element.
    pub fn one(rst: Rst, origin: &Rc<RantProgramInfo>) -> (seq: Self)
        ensures
            seq.tree() == (SequenceTree {
                name: None,
                origin: *origin,
                elements: seq![rst.tree()],
            }),
    {
        let mut elements: Vec<Rc<Rst>> = Vec::new();
        elements.push(Rc::new(rst));
        proof {
            lemma_node_trees_push(Seq::empty(), Rc::new(rst));
            assert(elements@ =~= Seq::empty().push(Rc::new(rst)));
            assert(node_trees(elements@) =~= seq![rst.tree()]);
        }
        Sequence { name: None, origin: Rc::clone(origin), elements }
    }

    /// The same sequence under another name.
    pub fn with_name_str(self, name: &str) -> (seq: Self)
        ensures
            seq.tree() == (SequenceTree { name: Some(name@), ..self.tree() }),
    {
        Sequence { name: Some(name.to_owned()), origin: self.origin, elements: self.elements }
    }
}

impl PathTree {
    /// The variable that the path names, if it starts with a name.
    pub open spec fn variable(self) -> Option<Seq<char>> {
        if self.parts.len() > 0 {
            match self.parts[0] {
                ComponentTree::Name(name) => Some(name),
                _ => None,
            }
        } else {
            None
        }
    }

    /// Whether the path starts with an anonymous value.
    pub open spec fn anonymous(self) -> bool {
        self.parts.len() > 0 && self.parts[0] is AnonymousValue
    }

    /// The path as it is written in messages and names.
    pub open spec fn text(self) -> Seq<char> {
        (match self.kind {
            AccessPathKind::Local => Seq::empty(),
            AccessPathKind::Descope(n) => Seq::new(n as nat, |i: int| '^'),
            AccessPathKind::ExplicitGlobal => seq!['/'],
        }) + parts_text(self.parts)
    }
}

/// The components of a path, separated by slashes.
pub open spec fn parts_text(parts: Seq<ComponentTree>) -> Seq<char>
    decreases parts.len(),
{
    if parts.len() == 0 {
        Seq::empty()
    } else if parts.len() == 1 {
        parts[0].text()
    } else {
        parts_text(parts.drop_last()).push('/') + parts.last().text()
    }
}

impl ComponentTree {
    pub open spec fn text(self) -> Seq<char> {
        match self {
            ComponentTree::Name(name) => name,
            ComponentTree::Index(i) => signed_decimal(i as int),
            ComponentTree::DynamicKey(_) => "{...}"@,
            ComponentTree::AnonymousValue(_) => "!..."@,
        }
    }
}

impl AccessPath {
    pub fn new(parts: Vec<AccessPathComponent>, kind: AccessPathKind) -> (path: Self)
        ensures
            path.tree() == (PathTree { parts: component_trees(parts@), kind }),
    {
        AccessPath { parts, kind }
    }

    pub fn kind(&self) -> (kind: AccessPathKind)
        ensures
            kind == self.tree().kind,
    {
        self.kind
    }

    pub fn len(&self) -> (len: usize)
        ensures
            len == self.tree().parts.len(),
    {
        proof {
            lemma_component_trees_len(self.parts@);
        }
        self.parts.len()
    }

    /// Whether the path starts with an anonymous value.
    pub fn is_anonymous(&self) -> (anonymous: bool)
        ensures
            anonymous == self.tree().anonymous(),
    {
        proof {
            lemma_component_trees_len(self.parts@);
        }
        if self.parts.len() == 0 {
            return false;
        }
        proof {
            lemma_component_trees_index(self.parts@, 0);
        }
        match &self.parts[0] {
            AccessPathComponent::AnonymousValue(_) => true,
            _ => false,
        }
    }

    /// The variable that the path names, if it starts with a name.
    pub fn capture_var_name(&self) -> (name: Option<String>)
        ensures
            opt_text(name) == self.tree().variable(),
    {
        proof {
            lemma_component_trees_len(self.parts@);
        }
        if self.parts.len() == 0 {
            return None;
        }
        proof {
            lemma_component_trees_index(self.parts@, 0);
        }
        match &self.parts[0] {
            AccessPathComponent::Name(id) => Some(id.name.clone()),
            _ => None,
        }
    }

    /// The path as it is written in messages and names.
    pub fn to_text(&self) -> (text: String)
        ensures
            text@ == self.tree().text(),
    {
        let mut text: String = String::new();
        match self.kind {
            AccessPathKind::Local => {},
            AccessPathKind::Descope(n) => {
                let mut i: usize = 0;
                while i < n
                    invariant
                        i <= n,
                        text@ == Seq::new(i as nat, |k: int| '^'),
                    decreases n - i,
                {
                    text.push('^');
                    i = i + 1;
                    assert(text@ =~= Seq::new(i as nat, |k: int| '^'));
                }
            },
            AccessPathKind::ExplicitGlobal => {
                text.push('/');
                assert(text@ =~= seq!['/']);
            },
        }
        let ghost prefix = text@;
        let mut i: usize = 0;
        proof {
            lemma_component_trees_len(self.parts@);
            assert(self.tree().parts.take(0) =~= Seq::empty());
            assert(text@ =~= prefix + parts_text(self.tree().parts.take(0)));
        }
        while i < self.parts.len()
            invariant
                i <= self.parts@.len(),
                self.tree().parts.len() == self.parts@.len(),
                text@ == prefix + parts_text(self.tree().parts.take(i as int)),
            decreases self.parts@.len() - i,
        {
            if i > 0 {
                text.push('/');
            }
            proof {
                lemma_component_trees_index(self.parts@, i as int);
            }
            let ghost before = text@;
            match &self.parts[i] {
                AccessPathComponent::Name(id) => text.append(id.as_str()),
                AccessPathComponent::Index(n) => push_signed_decimal(&mut text, *n),
                AccessPathComponent::DynamicKey(_) => text.append("{...}"),
                AccessPathComponent::AnonymousValue(_) => text.append("!..."),
            }
            proof {
                let parts = self.tree().parts;
                assert(parts.take(i + 1).drop_last() =~= parts.take(i as int));
                assert(text@ == before + parts[i as int].text());
                assert(text@ =~= prefix + parts_text(parts.take(i + 1)));
            }
            i = i + 1;
        }
        proof {
            assert(self.tree().parts.take(i as int) =~= self.tree().parts);
        }
        text
    }
}

impl Block {
    pub fn new(flag: PrintFlag, elements: Vec<Rc<Sequence>>) -> (block: Self)
        ensures
            block.tree() == (BlockTree { flag, elements: sequence_trees(elements@) }),
    {
        Block { flag, elements }
    }
}

impl RstTree {
    /// What kind of node this is, in messages.
    pub open spec fn label(self) -> Seq<char> {
        match self {
            RstTree::Fragment(..) => "fragment"@,
            RstTree::Whitespace(..) => "whitespace"@,
            RstTree::Integer(..) => "integer"@,
            RstTree::Float(..) => "float"@,
            RstTree::Boolean(..) => "boolean"@,
            RstTree::EmptyVal => "empty"@,
            RstTree::ListInit(..) => "list"@,
            RstTree::MapInit(..) => "map"@,
            RstTree::Block(..) => "block"@,
            RstTree::BlockValue(..) => "block value"@,
            RstTree::VarDef(..) => "variable definition"@,
            RstTree::VarGet(..) => "getter"@,
            RstTree::VarSet(..) => "setter"@,
            RstTree::FuncDef { .. } => "function definition"@,
            RstTree::Closure { .. } => "closure"@,
            RstTree::AnonFuncCall { .. } => "anonymous function call"@,
            RstTree::FuncCall { .. } => "function call"@,
            RstTree::DebugCursor(..) => "debug cursor"@,
        }
    }
}

impl Rst {
    /// What kind of node this is, in messages.
    pub fn display_name(&self) -> (name: &'static str)
        ensures
            name@ == self.tree().label(),
    {
        match self {
            Rst::Fragment(..) => "fragment",
            Rst::Whitespace(..) => "whitespace",
            Rst::Integer(..) => "integer",
            Rst::Float(..) => "float",
            Rst::Boolean(..) => "boolean",
            Rst::EmptyVal => "empty",
            Rst::ListInit(..) => "list",
            Rst::MapInit(..) => "map",
            Rst::Block(..) => "block",
            Rst::BlockValue(..) => "block value",
            Rst::VarDef(..) => "variable definition",
            Rst::VarGet(..) => "getter",
            Rst::VarSet(..) => "setter",
            Rst::FuncDef(..) => "function definition",
            Rst::Closure(..) => "closure",
            Rst::AnonFuncCall(..) => "anonymous function call",
            Rst::FuncCall(..) => "function call",
            Rst::DebugCursor(..) => "debug cursor",
        }
    }
}

} // verus!

//! What the parser accepts, what it builds and what it reports.
//!
//! Each function here says, for one construct of the language, what reading it from a given state
//! yields: the tree, or the reason that reading stopped, and the state afterwards.

use std::ops::Range;
use std::rc::Rc;
use vstd::prelude::*;
use crate::compiler::lang::{
    valid_ident, AccessPathKind, BlockTree, CaptureTree, ComponentTree, DebugInfo, KeyTree,
    ParameterTree, PathTree, PrintFlag, RantProgramInfo, RstTree, SequenceTree, Varity,
};
use crate::compiler::lexer::{Lexeme, RantToken};
use crate::compiler::message::{MessageView, Position, ProblemView, Severity};
use crate::compiler::reader::{after_ws, kind_at, last_span, last_text, lemma_after_ws, TokenKind};
use crate::compiler::scopes::{col_of, height_in, line_of, with_name_below};

verus! {

broadcast use lemma_after_ws;

/// What a sequence is part of.
#[derive(Debug, Clone, Copy, PartialEq, Eq, Structural)]
pub enum SequenceParseMode {
    /// A whole program. Ends with the input.
    TopLevel,
    /// An element of a block. Ends on `Pipe`, `Colon` and `RightBrace`.
    BlockElementAny,
    /// What follows the key in an element of a block. Ends on `Pipe` and `RightBrace`.
    BlockElementRhs,
    /// A function argument. Ends on `Semi`, `Compose` and `RightBracket`.
    FunctionArg,
    /// A function body. Ends on `RightBrace`.
    FunctionBody,
    /// A dynamic key expression. Ends on `RightBrace`.
    DynamicKey,
    /// An anonymous function expression. Ends on `Colon`, `Compose` and `RightBracket`.
    AnonFunctionExpr,
    /// A value assigned to a variable. Ends on `RightAngle` and `Semi`.
    VariableAssignment,
    /// The fallback value of an accessor. Ends on `RightAngle` and `Semi`.
    AccessorFallbackValue,
    /// An element of a collection. Ends on `Semi` and `RightParen`.
    CollectionInit,
    /// A single item. Ends after it.
    SingleItem,
}

/// What ended a sequence.
#[derive(Debug, Clone, Copy, PartialEq, Eq, Structural)]
pub enum SequenceEndType {
    /// The end of the input.
    ProgramEnd,
    /// A block element is a key and ended on `Colon`.
    BlockAssocDelim,
    /// A block element ended on `Pipe`.
    BlockDelim,
    /// A block element ended on `RightBrace`.
    BlockEnd,
    /// A function argument ended on `Semi`.
    FunctionArgEndNext,
    /// A function argument ended on `RightBracket`.
    FunctionArgEndBreak,
    /// A function argument ended on `Compose`.
    FunctionArgEndToCompose,
    /// A function body ended on `RightBrace`.
    FunctionBodyEnd,
    /// A dynamic key ended on `RightBrace`.
    DynamicKeyEnd,
    /// An anonymous function expression ended on `Colon`.
    AnonFunctionExprToArgs,
    /// An anonymous function expression ended on `RightBracket`: there are no arguments.
    AnonFunctionExprNoArgs,
    /// An anonymous function expression ended on `Compose`.
    AnonFunctionExprToCompose,
    /// An assigned value ended on `RightAngle`.
    VariableAccessEnd,
    /// An assigned value ended on `Semi`.
    VariableAssignDelim,
    /// A fallback value ended on `RightAngle`.
    AccessorFallbackValueToEnd,
    /// A fallback value ended on `Semi`.
    AccessorFallbackValueToDelim,
    /// A collection element ended on `RightParen`.
    CollectionInitEnd,
    /// A collection element ended on `Semi`.
    CollectionInitDelim,
    /// A single item was read.
    SingleItemEnd,
}

/// Which collection an initializer makes.
#[derive(Debug, Clone, Copy, PartialEq, Eq, Structural)]
pub enum CollectionInitKind {
    ListInit,
    MapInit,
}

/// Why reading stopped.
#[derive(Debug, Clone, Copy, PartialEq, Eq, Structural)]
pub enum ParseStop {
    /// An error that reading cannot go on after. It has been reported.
    SyntaxError,
    /// The input ended within the expression of an anonymous function call. Nothing has been
    /// reported.
    OpenCallee,
}

/// What is read from, and how.
pub struct Input {
    pub lexemes: Seq<Lexeme>,
    /// The bytes of the source.
    pub source: Seq<u8>,
    /// Whether positions are recorded in the tree.
    pub debug: bool,
    pub origin: Rc<RantProgramInfo>,
}

/// Where reading stands.
#[verifier::ext_equal]
pub struct State {
    /// How many tokens have been read.
    pub pos: nat,
    /// What has been reported.
    pub reports: Seq<MessageView>,
    /// The variables defined in each scope, the outermost first.
    pub scopes: Seq<Set<Seq<char>>>,
    /// For each function body being read, the outermost first, the number of scopes around it and
    /// the variables it captures from them.
    pub captures: Seq<(nat, Set<Seq<char>>)>,
}

impl Input {
    /// Every token starts within the source, and the number of tokens can be counted.
    pub open spec fn wf(self) -> bool {
        &&& forall|i: int|
            0 <= i < self.lexemes.len() ==> (#[trigger] self.lexemes[i]).span.start
                <= self.source.len()
        &&& self.lexemes.len() < usize::MAX
        &&& self.source.len() <= usize::MAX
    }
}

/// How many tokens are left.
pub open spec fn left(inp: Input, st: State) -> nat {
    if st.pos <= inp.lexemes.len() {
        (inp.lexemes.len() - st.pos) as nat
    } else {
        0
    }
}

/// Whether a token is left.
pub open spec fn unread(inp: Input, st: State) -> bool {
    st.pos < inp.lexemes.len()
}

/// `b`, which is not before `a`.
pub open spec fn ahead(a: State, b: State) -> State {
    if b.pos < a.pos {
        State { pos: a.pos, ..b }
    } else {
        b
    }
}

/// `b`, which is after `a`.
pub open spec fn past(a: State, b: State) -> State {
    if b.pos <= a.pos {
        State { pos: a.pos + 1, ..b }
    } else {
        b
    }
}

/// One token further.
pub open spec fn step(st: State) -> State {
    State { pos: st.pos + 1, ..st }
}

/// Past the whitespace that comes next.
pub open spec fn skip(inp: Input, st: State) -> State {
    State { pos: after_ws(inp.lexemes, st.pos), ..st }
}

/// Whether the next token is of kind `kind`.
pub open spec fn at(inp: Input, st: State, kind: TokenKind) -> bool {
    kind_at(inp.lexemes, st.pos, kind)
}

/// Past the next token if it is of kind `kind`.
pub open spec fn eat(inp: Input, st: State, kind: TokenKind) -> State {
    if at(inp, st, kind) {
        step(st)
    } else {
        st
    }
}

/// The next token, and past it.
pub open spec fn upcoming(inp: Input, st: State) -> (Option<Lexeme>, State) {
    if st.pos < inp.lexemes.len() {
        (Some(inp.lexemes[st.pos as int]), step(st))
    } else {
        (None, st)
    }
}

/// The next token that is no whitespace, and past it.
pub open spec fn solid(inp: Input, st: State) -> (Option<Lexeme>, State) {
    upcoming(inp, skip(inp, st))
}

/// The byte range of the token read last.
pub open spec fn span_here(inp: Input, st: State) -> Range<usize> {
    last_span(inp.lexemes, st.pos)
}

/// The source text of the token read last.
pub open spec fn text_here(inp: Input, st: State) -> Seq<char> {
    last_text(inp.lexemes, st.pos)
}

/// The smallest range that covers both.
pub open spec fn covering(a: Range<usize>, b: Range<usize>) -> Range<usize> {
    Range {
        start: if a.start <= b.start {
            a.start
        } else {
            b.start
        },
        end: if a.end >= b.end {
            a.end
        } else {
            b.end
        },
    }
}

/// From `start` to the end of the source.
pub open spec fn to_source_end(inp: Input, start: usize) -> Range<usize> {
    Range { start, end: inp.source.len() as usize }
}

/// With an error reported.
pub open spec fn report(inp: Input, st: State, problem: ProblemView, span: Range<usize>) -> State {
    State {
        reports: st.reports.push(
            MessageView {
                info: problem,
                severity: Severity::Error,
                pos: Some(
                    Position {
                        line: line_of(inp.source, span.start as nat) as usize,
                        col: col_of(inp.source, span.start as nat) as usize,
                        span,
                    },
                ),
            },
        ),
        ..st
    }
}

/// With the token read last reported as unexpected.
pub open spec fn report_unexpected(inp: Input, st: State) -> State {
    report(inp, st, ProblemView::UnexpectedToken(text_here(inp, st)), span_here(inp, st))
}

/// Inside a new scope.
pub open spec fn enter_scope(st: State, names: Set<Seq<char>>) -> State {
    State { scopes: st.scopes.push(names), ..st }
}

/// Outside the innermost scope.
pub open spec fn leave_scope(st: State) -> State {
    State { scopes: st.scopes.drop_last(), ..st }
}

/// With the variables that `node` defines in scope, and those that it uses captured.
///
/// A local path captures the variable it names if that variable is not defined inside the
/// innermost function body.
pub open spec fn capture(st: State, node: RstTree) -> State {
    match node {
        RstTree::VarDef(id, kind, _) => match kind {
            AccessPathKind::Local => State { scopes: with_name_below(st.scopes, id, 0), ..st },
            AccessPathKind::Descope(n) => State {
                scopes: with_name_below(st.scopes, id, n as nat),
                ..st
            },
            AccessPathKind::ExplicitGlobal => st,
        },
        RstTree::VarGet(path, _) => capture_path(st, path),
        RstTree::VarSet(path, _) => capture_path(st, path),
        RstTree::FuncCall { id, .. } => capture_path(st, id),
        _ => st,
    }
}

pub open spec fn capture_path(st: State, path: PathTree) -> State {
    if path.kind is Local && st.captures.len() > 0 {
        match path.variable() {
            Some(id) => {
                let (body_height, names) = st.captures.last();
                let height = match height_in(st.scopes, id) {
                    Some(height) => height,
                    None => 0,
                };
                if height < body_height {
                    State {
                        captures: st.captures.drop_last().push((body_height, names.insert(id))),
                        ..st
                    }
                } else {
                    st
                }
            },
            None => st,
        }
    } else {
        st
    }
}

// Sequences.

/// A sequence being read.
pub struct Draft {
    /// What has been read of it.
    pub nodes: Seq<RstTree>,
    /// The hint or sink that the next item is under.
    pub flag: PrintFlag,
    /// Where that hint or sink stands.
    pub flag_span: Range<usize>,
    /// Whether anything in it prints.
    pub printing: bool,
    /// Whitespace that goes into the sequence if something that prints follows.
    pub ws: Option<Seq<char>>,
}

/// A sequence that nothing has been read of.
pub open spec fn blank() -> Draft {
    Draft {
        nodes: Seq::empty(),
        flag: PrintFlag::Plain,
        flag_span: 0usize..0usize,
        printing: false,
        ws: None,
    }
}

/// A draft whose next item is under no hint or sink.
pub open spec fn unflagged(d: Draft) -> Draft {
    Draft { flag: PrintFlag::Plain, flag_span: 0usize..0usize, ..d }
}

/// The position of `span` in the source.
pub open spec fn location(inp: Input, span: Range<usize>) -> DebugInfo {
    DebugInfo::Location {
        line: line_of(inp.source, span.start as nat) as usize,
        col: col_of(inp.source, span.start as nat) as usize,
    }
}

/// With `node` added, after its position if positions are recorded.
pub open spec fn with_node(inp: Input, d: Draft, span: Range<usize>, node: RstTree) -> Draft {
    Draft {
        nodes: if inp.debug {
            d.nodes.push(RstTree::DebugCursor(location(inp, span))).push(node)
        } else {
            d.nodes.push(node)
        },
        ..d
    }
}

/// With the whitespace that was held back added.
pub open spec fn with_ws(inp: Input, d: Draft, span: Range<usize>) -> Draft {
    match d.ws {
        Some(ws) => with_node(inp, Draft { ws: None, ..d }, span, RstTree::Whitespace(ws)),
        None => d,
    }
}

/// Ready for something that prints.
pub open spec fn with_printing(inp: Input, d: Draft, span: Range<usize>) -> Draft {
    Draft { printing: true, ..with_ws(inp, d, span) }
}

/// With a block added. It prints if it is hinted or, when nothing else is said, if its elements do.
pub open spec fn with_block(
    inp: Input,
    d: Draft,
    span: Range<usize>,
    block_flag: PrintFlag,
    node: RstTree,
) -> Draft {
    let prints = match d.flag {
        PrintFlag::Hint => true,
        PrintFlag::Sink => false,
        PrintFlag::Plain => block_flag == PrintFlag::Hint,
    };
    with_node(
        inp,
        if prints {
            with_printing(inp, d, span)
        } else {
            d
        },
        span,
        node,
    )
}

/// With accessors added. Getters print.
pub open spec fn with_accessors(
    inp: Input,
    d: Draft,
    span: Range<usize>,
    accessors: Seq<RstTree>,
) -> Draft
    decreases accessors.len(),
{
    if accessors.len() == 0 {
        d
    } else {
        let before = with_accessors(inp, d, span, accessors.drop_last());
        with_node(
            inp,
            if accessors.last() is VarGet {
                with_printing(inp, before, span)
            } else {
                before
            },
            span,
            accessors.last(),
        )
    }
}

/// With an error reported if a hint or sink stands before an item that takes none.
pub open spec fn report_flag_on(inp: Input, st: State, d: Draft, label: Seq<char>) -> State {
    match d.flag {
        PrintFlag::Hint => report(inp, st, ProblemView::InvalidHintOn(label), d.flag_span),
        PrintFlag::Sink => report(inp, st, ProblemView::InvalidSinkOn(label), d.flag_span),
        PrintFlag::Plain => st,
    }
}

/// With an error reported if a hint or sink has no item.
pub open spec fn report_flag(inp: Input, st: State, d: Draft) -> State {
    match d.flag {
        PrintFlag::Hint => report(inp, st, ProblemView::InvalidHint, d.flag_span),
        PrintFlag::Sink => report(inp, st, ProblemView::InvalidSink, d.flag_span),
        PrintFlag::Plain => st,
    }
}

/// How a token ends a sequence: the name that the sequence gets, the kind of end, and whether the
/// sequence counts as printing whatever it holds.
pub struct Closing {
    pub name: Option<Seq<char>>,
    pub end: SequenceEndType,
    pub prints: bool,
}

/// How `token` ends a sequence of the given mode, if it does.
pub open spec fn closing(mode: SequenceParseMode, token: RantToken) -> Option<Closing> {
    match (token, mode) {
        (RantToken::Compose, SequenceParseMode::FunctionArg) => Some(
            Closing {
                name: Some("argument"@),
                end: SequenceEndType::FunctionArgEndToCompose,
                prints: false,
            },
        ),
        (RantToken::Compose, SequenceParseMode::AnonFunctionExpr) => Some(
            Closing {
                name: Some("anonymous function expression"@),
                end: SequenceEndType::AnonFunctionExprToCompose,
                prints: false,
            },
        ),
        (RantToken::Colon, SequenceParseMode::BlockElementAny) => Some(
            Closing {
                name: Some("block element"@),
                end: SequenceEndType::BlockAssocDelim,
                prints: false,
            },
        ),
        (RantToken::Pipe, SequenceParseMode::BlockElementAny) => Some(
            Closing {
                name: Some("block element"@),
                end: SequenceEndType::BlockDelim,
                prints: false,
            },
        ),
        (RantToken::RightBrace, SequenceParseMode::BlockElementAny) => Some(
            Closing {
                name: Some("block element"@),
                end: SequenceEndType::BlockEnd,
                prints: false,
            },
        ),
        (RantToken::Pipe, SequenceParseMode::BlockElementRhs) => Some(
            Closing {
                name: Some("block element"@),
                end: SequenceEndType::BlockDelim,
                prints: false,
            },
        ),
        (RantToken::RightBrace, SequenceParseMode::BlockElementRhs) => Some(
            Closing {
                name: Some("block element"@),
                end: SequenceEndType::BlockEnd,
                prints: false,
            },
        ),
        (RantToken::RightBrace, SequenceParseMode::FunctionBody) => Some(
            Closing {
                name: Some("function body"@),
                end: SequenceEndType::FunctionBodyEnd,
                prints: true,
            },
        ),
        (RantToken::RightBrace, SequenceParseMode::DynamicKey) => Some(
            Closing {
                name: Some("dynamic key"@),
                end: SequenceEndType::DynamicKeyEnd,
                prints: true,
            },
        ),
        (RantToken::RightParen, SequenceParseMode::CollectionInit) => Some(
            Closing { name: None, end: SequenceEndType::CollectionInitEnd, prints: true },
        ),
        (RantToken::RightBracket, SequenceParseMode::AnonFunctionExpr) => Some(
            Closing {
                name: Some("anonymous function expression"@),
                end: SequenceEndType::AnonFunctionExprNoArgs,
                prints: true,
            },
        ),
        (RantToken::RightBracket, SequenceParseMode::FunctionArg) => Some(
            Closing {
                name: Some("argument"@),
                end: SequenceEndType::FunctionArgEndBreak,
                prints: true,
            },
        ),
        (RantToken::RightAngle, SequenceParseMode::VariableAssignment) => Some(
            Closing {
                name: Some("setter value"@),
                end: SequenceEndType::VariableAccessEnd,
                prints: true,
            },
        ),
        (RantToken::RightAngle, SequenceParseMode::AccessorFallbackValue) => Some(
            Closing {
                name: Some("fallback value"@),
                end: SequenceEndType::AccessorFallbackValueToEnd,
                prints: true,
            },
        ),
        (RantToken::Colon, SequenceParseMode::AnonFunctionExpr) => Some(
            Closing {
                name: Some("anonymous function expression"@),
                end: SequenceEndType::AnonFunctionExprToArgs,
                prints: true,
            },
        ),
        (RantToken::Semi, SequenceParseMode::FunctionArg) => Some(
            Closing {
                name: Some("argument"@),
                end: SequenceEndType::FunctionArgEndNext,
                prints: true,
            },
        ),
        (RantToken::Semi, SequenceParseMode::CollectionInit) => Some(
            Closing {
                name: Some("collection item"@),
                end: SequenceEndType::CollectionInitDelim,
                prints: true,
            },
        ),
        (RantToken::Semi, SequenceParseMode::VariableAssignment) => Some(
            Closing {
                name: Some("variable assignment"@),
                end: SequenceEndType::VariableAssignDelim,
                prints: true,
            },
        ),
        (RantToken::Semi, SequenceParseMode::AccessorFallbackValue) => Some(
            Closing {
                name: Some("fallback value"@),
                end: SequenceEndType::AccessorFallbackValueToDelim,
                prints: true,
            },
        ),
        _ => None,
    }
}

/// Whether `end` is how a sequence of the given mode can end.
pub open spec fn can_end(mode: SequenceParseMode, end: SequenceEndType) -> bool {
    ||| end == SequenceEndType::ProgramEnd
    ||| mode == SequenceParseMode::SingleItem && end == SequenceEndType::SingleItemEnd
    ||| exists|token: RantToken| (#[trigger] closing(mode, token)) matches Some(c) && c.end == end
}

/// Whether a hint or sink right before the token makes the token go unread.
pub open spec fn bars_flags(token: RantToken) -> bool {
    match token {
        RantToken::Hint
        | RantToken::Sink
        | RantToken::Compose
        | RantToken::Pipe
        | RantToken::RightBrace
        | RantToken::RightParen
        | RantToken::RightBracket
        | RantToken::LeftAngle
        | RantToken::RightAngle
        | RantToken::Whitespace
        | RantToken::Colon
        | RantToken::Semi => true,
        _ => false,
    }
}

/// The text of the fragments and escapes from `pos` on.
pub open spec fn fragment_text(lexemes: Seq<Lexeme>, pos: nat) -> Seq<char>
    decreases lexemes.len() - pos,
{
    if pos < lexemes.len() {
        match lexemes[pos as int].token {
            RantToken::Fragment => lexemes[pos as int].text@ + fragment_text(lexemes, pos + 1),
            RantToken::Escape(c) => seq![c] + fragment_text(lexemes, pos + 1),
            _ => Seq::empty(),
        }
    } else {
        Seq::empty()
    }
}

/// The first position from `pos` on that holds neither a fragment nor an escape.
pub open spec fn after_fragments(lexemes: Seq<Lexeme>, pos: nat) -> nat
    decreases lexemes.len() - pos,
{
    if pos < lexemes.len() && (lexemes[pos as int].token is Fragment
        || lexemes[pos as int].token is Escape) {
        after_fragments(lexemes, pos + 1)
    } else {
        pos
    }
}

/// The node that a token stands for by itself, and the state after it and the fragments that join
/// it, read after the token.
pub open spec fn literal(inp: Input, st: State, lexeme: Lexeme) -> Option<(RstTree, State)> {
    match lexeme.token {
        RantToken::Bang
        | RantToken::Question
        | RantToken::Slash
        | RantToken::Plus
        | RantToken::Dollar
        | RantToken::Equals => Some((RstTree::Fragment(lexeme.text@), st)),
        RantToken::Fragment => Some(
            (
                RstTree::Fragment(lexeme.text@ + fragment_text(inp.lexemes, st.pos)),
                State { pos: after_fragments(inp.lexemes, st.pos), ..st },
            ),
        ),
        RantToken::Escape(c) => Some(
            (
                RstTree::Fragment(seq![c] + fragment_text(inp.lexemes, st.pos)),
                State { pos: after_fragments(inp.lexemes, st.pos), ..st },
            ),
        ),
        RantToken::Integer(n) => Some((RstTree::Integer(n), st)),
        RantToken::Float(n) => Some((RstTree::Float(n@), st)),
        RantToken::True => Some((RstTree::Boolean(true), st)),
        RantToken::False => Some((RstTree::Boolean(false), st)),
        RantToken::EmptyValue => Some((RstTree::EmptyVal, st)),
        RantToken::StringLiteral(s) => Some((RstTree::Fragment(s@), st)),
        _ => None,
    }
}

/// What a token that bars flags and opens nothing does where it does not end the sequence.
pub open spec fn stray(
    inp: Input,
    st: State,
    mode: SequenceParseMode,
    d: Draft,
    lexeme: Lexeme,
) -> (Draft, State) {
    let unexpected = report(inp, st, ProblemView::UnexpectedToken(lexeme.text@), lexeme.span);
    match lexeme.token {
        RantToken::Pipe => (
            Draft { ws: None, ..d },
            match mode {
                SequenceParseMode::DynamicKey => report(
                    inp,
                    st,
                    ProblemView::DynamicKeyBlockMultiElement,
                    lexeme.span,
                ),
                SequenceParseMode::FunctionBody => report(
                    inp,
                    st,
                    ProblemView::FunctionBodyBlockMultiElement,
                    lexeme.span,
                ),
                _ => unexpected,
            },
        ),
        RantToken::Compose | RantToken::RightBrace => (Draft { ws: None, ..d }, unexpected),
        RantToken::Colon => (
            with_node(inp, d, lexeme.span, RstTree::Fragment(":"@)),
            st,
        ),
        RantToken::Semi => (
            with_node(inp, d, lexeme.span, RstTree::Fragment(";"@)),
            st,
        ),
        RantToken::Whitespace => (
            if d.printing {
                Draft { ws: Some(lexeme.text@), ..d }
            } else {
                d
            },
            st,
        ),
        _ => (d, unexpected),
    }
}

/// A sequence that has been read, what ended it, and whether it prints.
pub struct SequenceRead {
    pub tree: SequenceTree,
    pub end: SequenceEndType,
    pub printing: bool,
    /// Whitespace that was held back when the sequence ended.
    pub ws: Option<Seq<char>>,
}

/// What became of an item.
pub enum ItemRead {
    /// It was a hint or sink.
    Flagged(Draft),
    /// It is in the sequence.
    Item(Draft),
    /// It ended the sequence.
    Ended(SequenceRead),
}

/// Reads a sequence in a scope of its own.
#[verifier::opaque]
pub open spec fn read_sequence(inp: Input, st: State, mode: SequenceParseMode) -> (
    Result<SequenceRead, ParseStop>,
    State,
)
    decreases left(inp, st), 2nat,
{
    let (result, st1) = read_items(inp, enter_scope(st, Set::empty()), mode, blank());
    (result, leave_scope(st1))
}

/// Reads the rest of a sequence.
#[verifier::opaque]
pub open spec fn read_items(inp: Input, st: State, mode: SequenceParseMode, d: Draft) -> (
    Result<SequenceRead, ParseStop>,
    State,
)
    decreases left(inp, st), 1nat,
{
    if st.pos >= inp.lexemes.len() {
        (
            Ok(
                SequenceRead {
                    tree: SequenceTree {
                        name: Some("main scope"@),
                        origin: inp.origin,
                        elements: d.nodes,
                    },
                    end: SequenceEndType::ProgramEnd,
                    printing: d.printing,
                    ws: d.ws,
                },
            ),
            report_flag(inp, st, d),
        )
    } else {
        let (result, st1) = read_item(inp, st, mode, d);
        match result {
            Err(stop) => (Err(stop), st1),
            Ok(ItemRead::Ended(read)) => (Ok(read), st1),
            Ok(ItemRead::Flagged(d1)) => read_items(inp, past(st, st1), mode, d1),
            Ok(ItemRead::Item(d1)) => if mode == SequenceParseMode::SingleItem {
                (
                    Ok(
                        SequenceRead {
                            tree: SequenceTree {
                                name: None,
                                origin: inp.origin,
                                elements: d1.nodes,
                            },
                            end: SequenceEndType::SingleItemEnd,
                            printing: d1.printing,
                            ws: d1.ws,
                        },
                    ),
                    st1,
                )
            } else {
                read_items(inp, past(st, st1), mode, unflagged(d1))
            },
        }
    }
}

/// Reads the next item of a sequence.
#[verifier::opaque]
pub open spec fn read_item(inp: Input, st0: State, mode: SequenceParseMode, d: Draft) -> (
    Result<ItemRead, ParseStop>,
    State,
)
    decreases left(inp, st0), 0nat,
{
    if st0.pos >= inp.lexemes.len() {
        (Ok(ItemRead::Item(d)), st0)
    } else {
        let lexeme = inp.lexemes[st0.pos as int];
        let st = step(st0);
        if opens_item(lexeme.token) && !(bars_flags(lexeme.token) && d.flag != PrintFlag::Plain) {
            let (result, st1) = read_opened(inp, st, d, lexeme);
            match result {
                Err(stop) => (Err(stop), st1),
                Ok(d1) => (Ok(ItemRead::Item(d1)), st1),
            }
        } else {
            read_plain(inp, st, mode, d, lexeme)
        }
    }
}

/// Reads an item that nothing is nested in, from behind its first token on.
pub open spec fn read_plain(
    inp: Input,
    st: State,
    mode: SequenceParseMode,
    d: Draft,
    lexeme: Lexeme,
) -> (Result<ItemRead, ParseStop>, State) {
    if bars_flags(lexeme.token) && d.flag != PrintFlag::Plain {
        (Ok(ItemRead::Item(d)), report_flag(inp, st, d))
    } else {
        match lexeme.token {
            RantToken::Hint => (
                Ok(
                    ItemRead::Flagged(
                        Draft {
                            flag: PrintFlag::Hint,
                            flag_span: lexeme.span,
                            ..with_printing(inp, d, lexeme.span)
                        },
                    ),
                ),
                st,
            ),
            RantToken::Sink => (
                Ok(
                    ItemRead::Flagged(
                        Draft { flag: PrintFlag::Sink, flag_span: lexeme.span, ws: None, ..d },
                    ),
                ),
                st,
            ),
            RantToken::UnterminatedStringLiteral => (
                Err(ParseStop::SyntaxError),
                report(inp, st, ProblemView::UnclosedStringLiteral, lexeme.span),
            ),
            _ => match literal(inp, st, lexeme) {
                Some((node, st1)) => (
                    Ok(
                        ItemRead::Item(
                            with_node(
                                inp,
                                if node is EmptyVal {
                                    d
                                } else {
                                    with_printing(inp, d, lexeme.span)
                                },
                                lexeme.span,
                                node,
                            ),
                        ),
                    ),
                    report_flag_on(inp, st1, d, node.label()),
                ),
                None => match closing(mode, lexeme.token) {
                    Some(c) => (
                        Ok(
                            ItemRead::Ended(
                                SequenceRead {
                                    tree: SequenceTree {
                                        name: c.name,
                                        origin: inp.origin,
                                        elements: d.nodes,
                                    },
                                    end: c.end,
                                    printing: c.prints || d.printing,
                                    ws: d.ws,
                                },
                            ),
                        ),
                        st,
                    ),
                    None => {
                        let (d1, st1) = stray(inp, st, mode, d, lexeme);
                        (Ok(ItemRead::Item(d1)), st1)
                    },
                },
            },
        }
    }
}

/// Whether an item that starts with the token has others nested in it.
pub open spec fn opens_item(token: RantToken) -> bool {
    match token {
        RantToken::Star
        | RantToken::LeftBrace
        | RantToken::At
        | RantToken::LeftParen
        | RantToken::LeftBracket
        | RantToken::LeftAngle => true,
        _ => false,
    }
}

/// Reads an item that others are nested in, from behind its first token on.
#[verifier::opaque]
pub open spec fn read_opened(inp: Input, st: State, d: Draft, lexeme: Lexeme) -> (
    Result<Draft, ParseStop>,
    State,
)
    decreases left(inp, st), 10nat,
{
    match lexeme.token {
        RantToken::Star => block_item(
            inp,
            d,
            lexeme.span,
            true,
            read_block(inp, skip(inp, st), true, d.flag),
        ),
        RantToken::LeftBrace => block_item(
            inp,
            d,
            lexeme.span,
            false,
            read_block(inp, st, false, d.flag),
        ),
        RantToken::At => {
            let (opening, st1) = solid(inp, st);
            if opening matches Some(opening) && opening.token is LeftParen {
                collection_item(inp, d, lexeme.span, read_map(inp, st1, lexeme.span, Seq::empty()))
            } else {
                collection_item(
                    inp,
                    d,
                    lexeme.span,
                    (
                        Ok(RstTree::EmptyVal),
                        report(
                            inp,
                            st1,
                            ProblemView::ExpectedToken("("@),
                            span_here(inp, st1),
                        ),
                    ),
                )
            }
        },
        RantToken::LeftParen => collection_item(
            inp,
            d,
            lexeme.span,
            read_list(inp, st, lexeme.span),
        ),
        RantToken::LeftBracket => func_item(
            inp,
            d,
            lexeme.span,
            read_func_access(inp, st, d.flag),
        ),
        RantToken::LeftAngle => accessor_item(
            inp,
            d,
            lexeme.span,
            read_accessors(inp, st, Seq::empty()),
        ),
        _ => (Ok(d), st),
    }
}

/// The draft with a block that was read, or with the block as a value.
pub open spec fn block_item(
    inp: Input,
    d: Draft,
    span: Range<usize>,
    deferred: bool,
    outcome: (Result<BlockTree, ParseStop>, State),
) -> (Result<Draft, ParseStop>, State) {
    match outcome.0 {
        Err(stop) => (Err(stop), outcome.1),
        Ok(block) => (
            Ok(
                with_block(
                    inp,
                    d,
                    span,
                    block.flag,
                    if deferred {
                        RstTree::BlockValue(block)
                    } else {
                        RstTree::Block(block)
                    },
                ),
            ),
            outcome.1,
        ),
    }
}

/// The draft with a collection that was read. Collections take no hints or sinks.
pub open spec fn collection_item(
    inp: Input,
    d: Draft,
    span: Range<usize>,
    outcome: (Result<RstTree, ParseStop>, State),
) -> (Result<Draft, ParseStop>, State) {
    match outcome.0 {
        Err(stop) => (Err(stop), outcome.1),
        Ok(node) => (
            Ok(with_node(inp, d, span, node)),
            report_flag_on(inp, outcome.1, d, node.label()),
        ),
    }
}

/// The draft with a function access that was read. A hinted call keeps the whitespace before it, and
/// a definition drops the whitespace around it.
pub open spec fn func_item(
    inp: Input,
    d: Draft,
    span: Range<usize>,
    outcome: (Result<RstTree, ParseStop>, State),
) -> (Result<Draft, ParseStop>, State) {
    match outcome.0 {
        Err(stop) => (Err(stop), outcome.1),
        Ok(node) => match node {
            RstTree::FuncCall { .. } => (
                Ok(
                    with_node(
                        inp,
                        if d.flag == PrintFlag::Hint {
                            with_ws(inp, d, span)
                        } else {
                            d
                        },
                        span,
                        node,
                    ),
                ),
                outcome.1,
            ),
            RstTree::FuncDef { .. } => (
                Ok(with_node(inp, Draft { ws: None, ..d }, span, node)),
                skip(inp, outcome.1),
            ),
            _ => (Ok(with_node(inp, d, span, node)), outcome.1),
        },
    }
}

/// The draft with accessors that were read.
pub open spec fn accessor_item(
    inp: Input,
    d: Draft,
    span: Range<usize>,
    outcome: (Result<Seq<RstTree>, ParseStop>, State),
) -> (Result<Draft, ParseStop>, State) {
    match outcome.0 {
        Err(stop) => (Err(stop), outcome.1),
        Ok(accessors) => (Ok(with_accessors(inp, d, span, accessors)), outcome.1),
    }
}

// Blocks and collections.

/// Reads a block from its opening brace on, or from behind it.
#[verifier::opaque]
pub open spec fn read_block(inp: Input, st: State, expect_opening_brace: bool, flag: PrintFlag) -> (
    Result<BlockTree, ParseStop>,
    State,
)
    decreases left(inp, st), 4nat,
{
    if expect_opening_brace && !at(inp, st, TokenKind::LeftBrace) {
        (
            Err(ParseStop::SyntaxError),
            report(inp, st, ProblemView::ExpectedToken("{"@), span_here(inp, st)),
        )
    } else {
        let st1 = if expect_opening_brace {
            step(st)
        } else {
            st
        };
        let (result, st2) = read_block_elements(
            inp,
            st1,
            span_here(inp, st1).start,
            Seq::empty(),
            false,
        );
        match result {
            Err(stop) => (Err(stop), st2),
            Ok((elements, printing)) => (
                Ok(
                    BlockTree {
                        flag: if printing && flag != PrintFlag::Sink {
                            PrintFlag::Hint
                        } else {
                            flag
                        },
                        elements,
                    },
                ),
                st2,
            ),
        }
    }
}

/// An element of a block of which a key has been read, with the colon that ended the key.
pub open spec fn after_key(inp: Input, st: State, key: SequenceRead) -> Draft {
    with_node(
        inp,
        Draft {
            nodes: key.tree.elements,
            flag: PrintFlag::Plain,
            flag_span: 0usize..0usize,
            printing: key.printing,
            ws: key.ws,
        },
        span_here(inp, st),
        RstTree::Fragment(":"@),
    )
}

/// Reads an element of a block in a scope of its own. A block makes nothing of keys: a key, its
/// colon and what follows are one element.
#[verifier::opaque]
pub open spec fn read_block_element(inp: Input, st: State) -> (
    Result<SequenceRead, ParseStop>,
    State,
)
    decreases left(inp, st), 2nat,
{
    let st0 = enter_scope(st, Set::empty());
    let (result, st1) = read_items(inp, st0, SequenceParseMode::BlockElementAny, blank());
    match result {
        Ok(key) if key.end == SequenceEndType::BlockAssocDelim && unread(inp, st) => {
            let (rest, st2) = read_items(
                inp,
                past(st0, st1),
                SequenceParseMode::BlockElementRhs,
                after_key(inp, st1, key),
            );
            (rest, leave_scope(st2))
        },
        _ => (result, leave_scope(st1)),
    }
}

/// Reads the rest of the elements of a block, and says whether any element prints.
#[verifier::opaque]
pub open spec fn read_block_elements(
    inp: Input,
    st: State,
    start: usize,
    elements: Seq<SequenceTree>,
    printing: bool,
) -> (Result<(Seq<SequenceTree>, bool), ParseStop>, State)
    decreases left(inp, st), 3nat,
{
    let (result, st1) = read_block_element(inp, st);
    match result {
        Err(stop) => (Err(stop), st1),
        Ok(read) => match read.end {
            SequenceEndType::BlockDelim if unread(inp, st) => read_block_elements(
                inp,
                past(st, st1),
                start,
                elements.push(read.tree),
                printing || read.printing,
            ),
            SequenceEndType::BlockEnd => (
                Ok((elements.push(read.tree), printing || read.printing)),
                st1,
            ),
            _ => (
                Err(ParseStop::SyntaxError),
                report(inp, st1, ProblemView::UnclosedBlock, to_source_end(inp, start)),
            ),
        },
    }
}

/// Reads a list initializer from behind its opening parenthesis on.
#[verifier::opaque]
pub open spec fn read_list(inp: Input, st: State, start: Range<usize>) -> (
    Result<RstTree, ParseStop>,
    State,
)
    decreases left(inp, st), 4nat,
{
    let st1 = skip(inp, st);
    if at(inp, st1, TokenKind::RightParen) {
        (Ok(RstTree::ListInit(Seq::empty())), step(st1))
    } else {
        read_list_elements(inp, st1, start, Seq::empty())
    }
}

/// Reads the rest of the elements of a list.
#[verifier::opaque]
pub open spec fn read_list_elements(
    inp: Input,
    st: State,
    start: Range<usize>,
    elements: Seq<SequenceTree>,
) -> (Result<RstTree, ParseStop>, State)
    decreases left(inp, st), 3nat,
{
    let (result, st1) = read_sequence(inp, skip(inp, st), SequenceParseMode::CollectionInit);
    match result {
        Err(stop) => (Err(stop), st1),
        Ok(read) => match read.end {
            SequenceEndType::CollectionInitDelim if unread(inp, st) => read_list_elements(
                inp,
                past(st, st1),
                start,
                elements.push(read.tree),
            ),
            SequenceEndType::CollectionInitEnd => (
                Ok(RstTree::ListInit(elements.push(read.tree))),
                st1,
            ),
            _ => (
                Err(ParseStop::SyntaxError),
                report(
                    inp,
                    st1,
                    ProblemView::UnclosedList,
                    covering(start, span_here(inp, st1)),
                ),
            ),
        },
    }
}

/// Reads the rest of a map initializer, from a key on.
#[verifier::opaque]
pub open spec fn read_map(
    inp: Input,
    st: State,
    start: Range<usize>,
    pairs: Seq<(KeyTree, SequenceTree)>,
) -> (Result<RstTree, ParseStop>, State)
    decreases left(inp, st), 5nat,
{
    let (key, st1) = read_map_key(inp, st, start);
    match key {
        Err(stop) => (Err(stop), st1),
        Ok(None) => (Ok(RstTree::MapInit(pairs)), st1),
        Ok(Some(key)) => {
            let st2 = skip(inp, past(st, st1));
            if !at(inp, st2, TokenKind::Equals) {
                (
                    Err(ParseStop::SyntaxError),
                    report(inp, st2, ProblemView::ExpectedToken("="@), span_here(inp, st2)),
                )
            } else {
                let st3 = skip(inp, step(st2));
                let (result, st4) = read_sequence(inp, st3, SequenceParseMode::CollectionInit);
                match result {
                    Err(stop) => (Err(stop), st4),
                    Ok(read) => match read.end {
                        SequenceEndType::CollectionInitDelim => read_map(
                            inp,
                            ahead(st3, st4),
                            start,
                            pairs.push((key, read.tree)),
                        ),
                        SequenceEndType::CollectionInitEnd => (
                            Ok(RstTree::MapInit(pairs.push((key, read.tree)))),
                            st4,
                        ),
                        _ => (
                            Err(ParseStop::SyntaxError),
                            report(
                                inp,
                                st4,
                                ProblemView::UnclosedMap,
                                covering(start, span_here(inp, st4)),
                            ),
                        ),
                    },
                }
            }
        },
    }
}

/// Reads a key of a map initializer, or the end of the map.
#[verifier::opaque]
pub open spec fn read_map_key(inp: Input, st: State, start: Range<usize>) -> (
    Result<Option<KeyTree>, ParseStop>,
    State,
)
    decreases left(inp, st), 4nat,
{
    let (lexeme, st1) = solid(inp, st);
    match lexeme {
        None => (
            Err(ParseStop::SyntaxError),
            report(inp, st1, ProblemView::UnclosedMap, covering(start, span_here(inp, st1))),
        ),
        Some(lexeme) => match lexeme.token {
            RantToken::LeftBrace => {
                let (result, st2) = read_dynamic_key(inp, st1, false);
                match result {
                    Err(stop) => (Err(stop), st2),
                    Ok(tree) => (Ok(Some(KeyTree::Dynamic(tree))), st2),
                }
            },
            RantToken::Fragment => (
                Ok(Some(KeyTree::Static(lexeme.text@))),
                if valid_ident(lexeme.text@) {
                    st1
                } else {
                    report(inp, st1, ProblemView::InvalidIdentifier(lexeme.text@), lexeme.span)
                },
            ),
            RantToken::StringLiteral(s) => (Ok(Some(KeyTree::Static(s@))), st1),
            RantToken::RightParen => (Ok(None), st1),
            _ => (Ok(Some(KeyTree::Static(lexeme.text@))), report_unexpected(inp, st1)),
        },
    }
}

/// Reads a dynamic key from its opening brace on, or from behind it.
#[verifier::opaque]
pub open spec fn read_dynamic_key(inp: Input, st: State, expect_opening_brace: bool) -> (
    Result<SequenceTree, ParseStop>,
    State,
)
    decreases left(inp, st), 3nat,
{
    if expect_opening_brace && !at(inp, st, TokenKind::LeftBrace) {
        (
            Err(ParseStop::SyntaxError),
            report(inp, st, ProblemView::ExpectedToken("{"@), span_here(inp, st)),
        )
    } else {
        let st1 = if expect_opening_brace {
            step(st)
        } else {
            st
        };
        let (result, st2) = read_sequence(inp, st1, SequenceParseMode::DynamicKey);
        match result {
            Err(stop) => (Err(stop), st2),
            Ok(read) => if read.end == SequenceEndType::DynamicKeyEnd {
                (Ok(read.tree), st2)
            } else {
                (
                    Err(ParseStop::SyntaxError),
                    report(
                        inp,
                        st2,
                        ProblemView::UnclosedBlock,
                        to_source_end(inp, span_here(inp, st1).start),
                    ),
                )
            },
        }
    }
}

// Access paths.

/// How many carets come one after the other from `pos` on.
pub open spec fn carets(lexemes: Seq<Lexeme>, pos: nat) -> nat
    decreases lexemes.len() - pos,
{
    if kind_at(lexemes, pos, TokenKind::Caret) {
        carets(lexemes, pos + 1) + 1
    } else {
        0
    }
}

/// Reads what says where an access path starts.
pub open spec fn read_path_kind(inp: Input, st: State) -> (AccessPathKind, State) {
    if at(inp, st, TokenKind::Slash) {
        (AccessPathKind::ExplicitGlobal, step(st))
    } else {
        let count = carets(inp.lexemes, st.pos);
        if count > 0 {
            (AccessPathKind::Descope(count as usize), State { pos: st.pos + count, ..st })
        } else {
            (AccessPathKind::Local, st)
        }
    }
}

/// The parts of a path with a name added, or an error reported if it is no identifier.
pub open spec fn name_part(inp: Input, st: State, parts: Seq<ComponentTree>, lexeme: Lexeme) -> (
    Seq<ComponentTree>,
    State,
) {
    if lexeme.token is Fragment && valid_ident(lexeme.text@) {
        (parts.push(ComponentTree::Name(lexeme.text@)), st)
    } else {
        (parts, report(inp, st, ProblemView::InvalidIdentifier(lexeme.text@), lexeme.span))
    }
}

/// Reads an access path.
#[verifier::opaque]
pub open spec fn read_path(inp: Input, st: State, allow_anonymous: bool) -> (
    Result<PathTree, ParseStop>,
    State,
)
    decreases left(inp, st), 5nat,
{
    let st1 = skip(inp, st);
    if allow_anonymous && at(inp, st1, TokenKind::Bang) {
        let st2 = skip(inp, step(st1));
        let (result, st3) = read_sequence(inp, st2, SequenceParseMode::SingleItem);
        match result {
            Err(stop) => (Err(stop), st3),
            Ok(read) => if read.end == SequenceEndType::SingleItemEnd {
                read_path_rest(
                    inp,
                    ahead(st2, st3),
                    seq![ComponentTree::AnonymousValue(read.tree)],
                    AccessPathKind::Local,
                )
            } else {
                (
                    Err(ParseStop::SyntaxError),
                    report(inp, st3, ProblemView::UnclosedVariableAccess, span_here(inp, st3)),
                )
            },
        }
    } else {
        let (kind, st2) = read_path_kind(inp, st1);
        let (first, st3) = solid(inp, st2);
        match first {
            None => (
                Err(ParseStop::SyntaxError),
                report(inp, st3, ProblemView::MissingIdentifier, span_here(inp, st1)),
            ),
            Some(lexeme) => match lexeme.token {
                RantToken::LeftBrace => {
                    let (result, st4) = read_dynamic_key(inp, st3, false);
                    match result {
                        Err(stop) => (Err(stop), st4),
                        Ok(key) => read_path_rest(
                            inp,
                            ahead(st3, st4),
                            seq![ComponentTree::DynamicKey(key)],
                            kind,
                        ),
                    }
                },
                RantToken::Integer(_) => read_path_rest(
                    inp,
                    report(inp, st3, ProblemView::LocalPathStartsWithIndex, lexeme.span),
                    Seq::empty(),
                    kind,
                ),
                _ => {
                    let (parts, st4) = name_part(inp, st3, Seq::empty(), lexeme);
                    read_path_rest(inp, st4, parts, kind)
                },
            },
        }
    }
}

/// Reads the rest of an access path.
#[verifier::opaque]
pub open spec fn read_path_rest(
    inp: Input,
    st: State,
    parts: Seq<ComponentTree>,
    kind: AccessPathKind,
) -> (Result<PathTree, ParseStop>, State)
    decreases left(inp, st), 4nat,
{
    let st1 = skip(inp, st);
    if !at(inp, st1, TokenKind::Slash) {
        (Ok(PathTree { parts, kind }), st1)
    } else {
        let (component, st2) = solid(inp, step(st1));
        match component {
            None => (
                Err(ParseStop::SyntaxError),
                report(inp, st2, ProblemView::MissingIdentifier, span_here(inp, st2)),
            ),
            Some(lexeme) => match lexeme.token {
                RantToken::Integer(index) => read_path_rest(
                    inp,
                    st2,
                    parts.push(ComponentTree::Index(index)),
                    kind,
                ),
                RantToken::LeftBrace => {
                    let (result, st3) = read_dynamic_key(inp, st2, false);
                    match result {
                        Err(stop) => (Err(stop), st3),
                        Ok(key) => read_path_rest(
                            inp,
                            ahead(st2, st3),
                            parts.push(ComponentTree::DynamicKey(key)),
                            kind,
                        ),
                    }
                },
                _ => {
                    let (parts1, st3) = name_part(inp, st2, parts, lexeme);
                    read_path_rest(inp, st3, parts1, kind)
                },
            },
        }
    }
}

// Functions.

/// Whether a parameter of that name is among `params`.
pub open spec fn has_param(params: Seq<ParameterTree>, name: Seq<char>) -> bool {
    exists|i: int| 0 <= i < params.len() && (#[trigger] params[i]).name == name
}

/// Whether any parameter is variadic.
pub open spec fn any_variadic(params: Seq<ParameterTree>) -> bool {
    exists|i: int| 0 <= i < params.len() && (#[trigger] params[i]).varity.spec_is_variadic()
}

/// The varity of the last parameter; that of a required one if there is none.
pub open spec fn last_varity(params: Seq<ParameterTree>) -> Varity {
    if params.len() > 0 {
        params.last().varity
    } else {
        Varity::Required
    }
}

/// Reads the mark that gives a parameter its varity.
pub open spec fn read_varity(inp: Input, st: State) -> (Varity, State) {
    if at(inp, st, TokenKind::Question) {
        (Varity::Optional, step(st))
    } else if at(inp, st, TokenKind::Star) {
        (Varity::VariadicStar, step(st))
    } else if at(inp, st, TokenKind::Plus) {
        (Varity::VariadicPlus, step(st))
    } else {
        (Varity::Required, st)
    }
}

/// Reads a parameter from behind its name on.
pub open spec fn read_param(inp: Input, st: State, params: Seq<ParameterTree>, lexeme: Lexeme) -> (
    ParameterTree,
    State,
) {
    let name = lexeme.text@;
    let st1 = if valid_ident(name) {
        st
    } else {
        report(inp, st, ProblemView::InvalidIdentifier(name), lexeme.span)
    };
    let st2 = if has_param(params, name) {
        report(inp, st1, ProblemView::DuplicateParameter(name), lexeme.span)
    } else {
        st1
    };
    let st3 = skip(inp, st2);
    let (varity, st4) = read_varity(inp, st3);
    let span = if varity is Required {
        lexeme.span
    } else {
        covering(lexeme.span, span_here(inp, st4))
    };
    let st5 = if any_variadic(params) && varity.spec_is_variadic() {
        report(inp, st4, ProblemView::MultipleVariadicParams, span)
    } else if !Varity::valid_order(last_varity(params), varity) {
        report(
            inp,
            st4,
            ProblemView::InvalidParamOrder(last_varity(params).label(), varity.label()),
            span,
        )
    } else {
        st4
    };
    (ParameterTree { name, varity }, st5)
}

/// Reads the rest of a parameter list, from a parameter on.
#[verifier::opaque]
pub open spec fn read_param_list(
    inp: Input,
    st: State,
    start: Range<usize>,
    params: Seq<ParameterTree>,
) -> (Result<Seq<ParameterTree>, ParseStop>, State)
    decreases left(inp, st),
{
    let (lexeme, st1) = solid(inp, st);
    match lexeme {
        None => (
            Err(ParseStop::SyntaxError),
            report(inp, st1, ProblemView::UnclosedFunctionSignature, start),
        ),
        Some(lexeme) => match lexeme.token {
            RantToken::Fragment => {
                let (param, st2) = read_param(inp, st1, params, lexeme);
                let (delimiter, st3) = solid(inp, st2);
                match delimiter {
                    None => (
                        Err(ParseStop::SyntaxError),
                        report(inp, st3, ProblemView::UnclosedFunctionSignature, start),
                    ),
                    Some(delimiter) => match delimiter.token {
                        RantToken::Semi => read_param_list(inp, st3, start, params.push(param)),
                        RantToken::RightBracket => (Ok(params.push(param)), st3),
                        _ => (Err(ParseStop::SyntaxError), report_unexpected(inp, st3)),
                    },
                }
            },
            RantToken::RightBracket => (
                Ok(params),
                report(inp, st1, ProblemView::MissingIdentifier, lexeme.span),
            ),
            _ => read_param_list(
                inp,
                report(inp, st1, ProblemView::InvalidIdentifier(lexeme.text@), lexeme.span),
                start,
                params,
            ),
        },
    }
}

/// Reads the parameters of a function, with the bracket that closes the signature.
pub open spec fn read_params(inp: Input, st: State, start: Range<usize>) -> (
    Result<Seq<ParameterTree>, ParseStop>,
    State,
) {
    let (lexeme, st1) = solid(inp, st);
    match lexeme {
        None => (
            Err(ParseStop::SyntaxError),
            report(inp, st1, ProblemView::UnclosedFunctionSignature, start),
        ),
        Some(lexeme) => match lexeme.token {
            RantToken::Colon => read_param_list(inp, st1, start, Seq::empty()),
            RantToken::RightBracket => (Ok(Seq::empty()), st1),
            _ => (Err(ParseStop::SyntaxError), report_unexpected(inp, st1)),
        },
    }
}

/// The names of parameters.
pub open spec fn param_names(params: Seq<ParameterTree>) -> Set<Seq<char>> {
    params.map_values(|param: ParameterTree| param.name).to_set()
}

/// Reads a function body, with its braces, and gives the variables that it captures.
#[verifier::opaque]
pub open spec fn read_func_body(inp: Input, st: State, params: Seq<ParameterTree>) -> (
    Result<(SequenceTree, CaptureTree), ParseStop>,
    State,
)
    decreases left(inp, st), 3nat,
{
    if !at(inp, st, TokenKind::LeftBrace) {
        (
            Err(ParseStop::SyntaxError),
            report(inp, st, ProblemView::ExpectedToken("{"@), span_here(inp, st)),
        )
    } else {
        let st1 = step(st);
        let st2 = enter_scope(
            State { captures: st1.captures.push((st1.scopes.len(), Set::empty())), ..st1 },
            param_names(params),
        );
        let (result, st3) = read_items(inp, st2, SequenceParseMode::FunctionBody, blank());
        let st4 = leave_scope(State { captures: st3.captures.drop_last(), ..st3 });
        match result {
            Err(stop) => (Err(stop), st4),
            Ok(read) => if read.end == SequenceEndType::FunctionBodyEnd {
                let names = st3.captures.last().1;
                (Ok((read.tree, CaptureTree { names, listed: names.len() })), st4)
            } else {
                (
                    Err(ParseStop::SyntaxError),
                    report(
                        inp,
                        st4,
                        ProblemView::UnclosedBlock,
                        to_source_end(inp, span_here(inp, st1).start),
                    ),
                )
            },
        }
    }
}

/// An unnamed sequence of one node.
pub open spec fn sequence_of(inp: Input, node: RstTree) -> SequenceTree {
    SequenceTree { name: None, origin: inp.origin, elements: seq![node] }
}

/// The name of a function body.
pub open spec fn body_name(path: PathTree) -> Seq<char> {
    seq!['['] + path.text() + seq![']']
}

/// Reads a function definition, a closure or function calls from behind the opening bracket on.
#[verifier::opaque]
pub open spec fn read_func_access(inp: Input, st: State, flag: PrintFlag) -> (
    Result<RstTree, ParseStop>,
    State,
)
    decreases left(inp, st), 9nat,
{
    let start = span_here(inp, st);
    let st1 = skip(inp, st);
    if at(inp, st1, TokenKind::Dollar) {
        let (path, st2) = read_path(inp, step(st1), false);
        match path {
            Err(stop) => (Err(stop), st2),
            Ok(path) => {
                let (params, st3) = read_params(inp, ahead(step(st1), st2), start);
                match params {
                    Err(stop) => (Err(stop), st3),
                    Ok(params) => {
                        let (body, st4) = read_func_body(
                            inp,
                            skip(inp, ahead(step(st1), st3)),
                            params,
                        );
                        match body {
                            Err(stop) => (Err(stop), st4),
                            Ok((body, captures)) => (
                                Ok(
                                    RstTree::FuncDef {
                                        id: path,
                                        params,
                                        captures,
                                        body: SequenceTree {
                                            name: Some(body_name(path)),
                                            ..body
                                        },
                                    },
                                ),
                                st4,
                            ),
                        }
                    },
                }
            },
        }
    } else if at(inp, st1, TokenKind::Question) {
        let (params, st2) = read_params(inp, step(st1), start);
        match params {
            Err(stop) => (Err(stop), st2),
            Ok(params) => {
                let (body, st3) = read_func_body(inp, skip(inp, ahead(step(st1), st2)), params);
                match body {
                    Err(stop) => (Err(stop), st3),
                    Ok((body, captures)) => (
                        Ok(
                            RstTree::Closure {
                                params,
                                captures,
                                expr: SequenceTree { name: Some("closure"@), ..body },
                            },
                        ),
                        st3,
                    ),
                }
            },
        }
    } else {
        read_calls(inp, st1, flag, None)
    }
}

/// Reads function calls, each composed with the one before it, if any.
#[verifier::opaque]
pub open spec fn read_calls(inp: Input, st: State, flag: PrintFlag, composed: Option<RstTree>) -> (
    Result<RstTree, ParseStop>,
    State,
)
    decreases left(inp, st), 8nat,
{
    let (result, st1) = read_call(inp, st, flag, composed);
    match result {
        Err(stop) => (Err(stop), st1),
        Ok((call, finished)) => if finished || !unread(inp, st) {
            (Ok(call), st1)
        } else {
            read_calls(inp, past(st, st1), flag, Some(call))
        },
    }
}

/// The arguments of a call.
pub struct ArgsRead {
    pub args: Seq<SequenceTree>,
    /// The composed value, if no argument is it.
    pub composed: Option<RstTree>,
    /// Whether the call ended with them. If not, another call is composed with it.
    pub finished: bool,
}

/// The arguments with a composed value that none of them is put first.
pub open spec fn with_composed(inp: Input, read: ArgsRead) -> Seq<SequenceTree> {
    match read.composed {
        Some(node) => seq![sequence_of(inp, node)] + read.args,
        None => read.args,
    }
}

/// Reads what follows the name of the function in a call.
#[verifier::opaque]
pub open spec fn read_call_rest(inp: Input, st: State, composed: Option<RstTree>, composing: bool)
 -> (Result<ArgsRead, ParseStop>, State)
    decreases left(inp, st), 4nat,
{
    let (lexeme, st1) = solid(inp, st);
    match lexeme {
        None => (
            Err(ParseStop::SyntaxError),
            report(inp, st1, ProblemView::UnclosedFunctionCall, span_here(inp, st1)),
        ),
        Some(lexeme) => match lexeme.token {
            RantToken::RightBracket => (
                Ok(ArgsRead { args: Seq::empty(), composed, finished: true }),
                st1,
            ),
            RantToken::Compose => (
                Ok(ArgsRead { args: Seq::empty(), composed, finished: false }),
                st1,
            ),
            RantToken::Colon => read_args(inp, st1, composing, composed, Seq::empty()),
            _ => (Err(ParseStop::SyntaxError), report_unexpected(inp, st1)),
        },
    }
}

/// Reads one function call and says whether it is the last of the composition.
#[verifier::opaque]
pub open spec fn read_call(inp: Input, st: State, flag: PrintFlag, composed: Option<RstTree>) -> (
    Result<(RstTree, bool), ParseStop>,
    State,
)
    decreases left(inp, st), 7nat,
{
    let st1 = skip(inp, st);
    if at(inp, st1, TokenKind::Bang) {
        read_anon_call(inp, skip(inp, step(st1)), flag, composed)
    } else {
        read_named_call(inp, st1, flag, composed)
    }
}

/// A call of what `callee` gives, once its arguments were read.
pub open spec fn anon_call(
    inp: Input,
    flag: PrintFlag,
    callee: SequenceTree,
    outcome: (Result<ArgsRead, ParseStop>, State),
) -> (Result<(RstTree, bool), ParseStop>, State) {
    match outcome.0 {
        Err(stop) => (Err(stop), outcome.1),
        Ok(read) => (
            Ok(
                (
                    RstTree::AnonFuncCall { expr: callee, args: with_composed(inp, read), flag },
                    read.finished,
                ),
            ),
            outcome.1,
        ),
    }
}

/// A call of the function that `path` names, once its arguments were read.
pub open spec fn named_call(
    inp: Input,
    flag: PrintFlag,
    path: PathTree,
    outcome: (Result<ArgsRead, ParseStop>, State),
) -> (Result<(RstTree, bool), ParseStop>, State) {
    match outcome.0 {
        Err(stop) => (Err(stop), outcome.1),
        Ok(read) => {
            let call = RstTree::FuncCall { id: path, args: with_composed(inp, read), flag };
            (Ok((call, read.finished)), capture(outcome.1, call))
        },
    }
}

/// Reads an anonymous function call from behind its `!` on.
#[verifier::opaque]
pub open spec fn read_anon_call(
    inp: Input,
    st: State,
    flag: PrintFlag,
    composed: Option<RstTree>,
) -> (Result<(RstTree, bool), ParseStop>, State)
    decreases left(inp, st), 6nat,
{
    if at(inp, st, TokenKind::ComposeValue) {
        let st1 = step(st);
        match composed {
            None => (
                Err(ParseStop::SyntaxError),
                report(inp, st1, ProblemView::NothingToCompose, span_here(inp, st1)),
            ),
            Some(node) => anon_call(
                inp,
                flag,
                sequence_of(inp, node),
                read_call_rest(inp, st1, None, true),
            ),
        }
    } else {
        let (callee, st1) = read_sequence(inp, st, SequenceParseMode::AnonFunctionExpr);
        match callee {
            Err(stop) => (Err(stop), st1),
            Ok(callee) => anon_call(
                inp,
                flag,
                callee.tree,
                read_callee_args(inp, ahead(st, st1), callee.end, composed),
            ),
        }
    }
}

/// Reads the arguments of an anonymous function call whose function ended as `end` says.
#[verifier::opaque]
pub open spec fn read_callee_args(
    inp: Input,
    st: State,
    end: SequenceEndType,
    composed: Option<RstTree>,
) -> (Result<ArgsRead, ParseStop>, State)
    decreases left(inp, st), 5nat,
{
    match end {
        SequenceEndType::AnonFunctionExprNoArgs => (
            Ok(ArgsRead { args: Seq::empty(), composed, finished: true }),
            st,
        ),
        SequenceEndType::AnonFunctionExprToCompose => (
            Ok(ArgsRead { args: Seq::empty(), composed, finished: false }),
            st,
        ),
        SequenceEndType::AnonFunctionExprToArgs => read_args(
            inp,
            st,
            composed is Some,
            composed,
            Seq::empty(),
        ),
        _ => (Err(ParseStop::OpenCallee), st),
    }
}

/// Reads a call of a function that a path names.
#[verifier::opaque]
pub open spec fn read_named_call(
    inp: Input,
    st: State,
    flag: PrintFlag,
    composed: Option<RstTree>,
) -> (Result<(RstTree, bool), ParseStop>, State)
    decreases left(inp, st), 6nat,
{
    let (path, st1) = read_path(inp, st, false);
    match path {
        Err(stop) => (Err(stop), st1),
        Ok(path) => named_call(
            inp,
            flag,
            path,
            read_call_rest(inp, ahead(st, st1), composed, composed is Some),
        ),
    }
}

/// Reads the rest of the arguments of a call.
#[verifier::opaque]
pub open spec fn read_args(
    inp: Input,
    st: State,
    composing: bool,
    composed: Option<RstTree>,
    args: Seq<SequenceTree>,
) -> (Result<ArgsRead, ParseStop>, State)
    decreases left(inp, st), 3nat,
{
    let st1 = skip(inp, st);
    if at(inp, st1, TokenKind::ComposeValue) {
        let st2 = step(st1);
        if composing {
            let (args1, st3) = match composed {
                Some(node) => (args.push(sequence_of(inp, node)), st2),
                None => (
                    args,
                    report(inp, st2, ProblemView::ComposeValueReused, span_here(inp, st2)),
                ),
            };
            let (delimiter, st4) = solid(inp, st3);
            match delimiter {
                None => (
                    Err(ParseStop::SyntaxError),
                    report(inp, st4, ProblemView::UnclosedFunctionCall, span_here(inp, st4)),
                ),
                Some(delimiter) => match delimiter.token {
                    RantToken::Compose => (
                        Ok(ArgsRead { args: args1, composed: None, finished: false }),
                        st4,
                    ),
                    RantToken::Semi => read_args(inp, st4, composing, None, args1),
                    RantToken::RightBracket => (
                        Ok(ArgsRead { args: args1, composed: None, finished: true }),
                        st4,
                    ),
                    _ => (Err(ParseStop::SyntaxError), report_unexpected(inp, st4)),
                },
            }
        } else {
            read_args(
                inp,
                report(inp, st2, ProblemView::NothingToCompose, span_here(inp, st2)),
                composing,
                composed,
                args,
            )
        }
    } else {
        let (result, st2) = read_sequence(inp, st1, SequenceParseMode::FunctionArg);
        match result {
            Err(stop) => (Err(stop), st2),
            Ok(read) => match read.end {
                SequenceEndType::FunctionArgEndNext if unread(inp, st) => read_args(
                    inp,
                    past(st, st2),
                    composing,
                    composed,
                    args.push(read.tree),
                ),
                SequenceEndType::FunctionArgEndBreak => (
                    Ok(ArgsRead { args: args.push(read.tree), composed, finished: true }),
                    st2,
                ),
                SequenceEndType::FunctionArgEndToCompose => (
                    Ok(ArgsRead { args: args.push(read.tree), composed, finished: false }),
                    st2,
                ),
                _ => (
                    Err(ParseStop::SyntaxError),
                    report(inp, st2, ProblemView::UnclosedFunctionCall, span_here(inp, st2)),
                ),
            },
        }
    }
}

// Accessors.

/// Reads an identifier.
pub open spec fn read_ident(inp: Input, st: State) -> (Result<Seq<char>, ParseStop>, State) {
    let (lexeme, st1) = solid(inp, st);
    match lexeme {
        None => (
            Err(ParseStop::SyntaxError),
            report(inp, st1, ProblemView::MissingIdentifier, span_here(inp, st1)),
        ),
        Some(lexeme) => if lexeme.token is Fragment {
            (
                Ok(lexeme.text@),
                if valid_ident(lexeme.text@) {
                    st1
                } else {
                    report(inp, st1, ProblemView::InvalidIdentifier(lexeme.text@), lexeme.span)
                },
            )
        } else {
            (Err(ParseStop::SyntaxError), report_unexpected(inp, st1))
        },
    }
}

/// Reads the rest of a list of accessors.
#[verifier::opaque]
pub open spec fn read_accessors(inp: Input, st: State, accessors: Seq<RstTree>) -> (
    Result<Seq<RstTree>, ParseStop>,
    State,
)
    decreases left(inp, st), 7nat,
{
    let st1 = skip(inp, st);
    if accessors.len() > 0 && at(inp, st1, TokenKind::RightAngle) {
        (Ok(accessors), step(st1))
    } else {
        let (result, st2) = read_accessor(inp, st1, span_here(inp, st));
        match result {
            Err(stop) => (Err(stop), st2),
            Ok((accessor, more)) => if more && unread(inp, st) {
                read_accessors(inp, past(st, st2), accessors.push(accessor))
            } else {
                (Ok(accessors.push(accessor)), st2)
            },
        }
    }
}

/// Reads one accessor and says whether another follows.
#[verifier::opaque]
pub open spec fn read_accessor(inp: Input, st: State, start: Range<usize>) -> (
    Result<(RstTree, bool), ParseStop>,
    State,
)
    decreases left(inp, st), 6nat,
{
    if at(inp, st, TokenKind::Dollar) {
        let (kind, st1) = read_path_kind(inp, skip(inp, step(st)));
        let (name, st2) = read_ident(inp, skip(inp, st1));
        match name {
            Err(stop) => (Err(stop), st2),
            Ok(name) => read_definition(inp, ahead(st, st2), name, kind),
        }
    } else {
        let (path, st1) = read_path(inp, st, true);
        match path {
            Err(stop) => (Err(stop), st1),
            Ok(path) => read_access(inp, ahead(st, st1), path, start),
        }
    }
}

/// Reads a definition from behind the name of its variable on.
#[verifier::opaque]
pub open spec fn read_definition(inp: Input, st: State, name: Seq<char>, kind: AccessPathKind) -> (
    Result<(RstTree, bool), ParseStop>,
    State,
)
    decreases left(inp, st), 5nat,
{
    let (lexeme, st1) = solid(inp, st);
    let plain = RstTree::VarDef(name, kind, None);
    match lexeme {
        None => (
            Err(ParseStop::SyntaxError),
            report(inp, st1, ProblemView::UnclosedVariableAccess, span_here(inp, st1)),
        ),
        Some(lexeme) => match lexeme.token {
            RantToken::RightAngle => (Ok((plain, false)), capture(st1, plain)),
            RantToken::Semi => (Ok((plain, true)), capture(st1, plain)),
            RantToken::Equals => {
                let (value, st2) = read_sequence(
                    inp,
                    skip(inp, st1),
                    SequenceParseMode::VariableAssignment,
                );
                match value {
                    Err(stop) => (Err(stop), st2),
                    Ok(read) => finish_assignment(
                        inp,
                        st2,
                        RstTree::VarDef(name, kind, Some(read.tree)),
                        read.end,
                    ),
                }
            },
            _ => (Err(ParseStop::SyntaxError), report_unexpected(inp, st1)),
        },
    }
}

/// Reads a getter or setter from behind its path on.
#[verifier::opaque]
pub open spec fn read_access(inp: Input, st: State, path: PathTree, start: Range<usize>) -> (
    Result<(RstTree, bool), ParseStop>,
    State,
)
    decreases left(inp, st), 5nat,
{
    let (lexeme, st1) = solid(inp, st);
    let plain = RstTree::VarGet(path, None);
    match lexeme {
        None => (
            Err(ParseStop::SyntaxError),
            report(inp, st1, ProblemView::UnclosedVariableAccess, span_here(inp, st1)),
        ),
        Some(lexeme) => match lexeme.token {
            RantToken::RightAngle => (Ok((plain, false)), capture(st1, plain)),
            RantToken::Semi => (Ok((plain, true)), capture(st1, plain)),
            RantToken::Question => {
                let (value, st2) = read_sequence(
                    inp,
                    skip(inp, st1),
                    SequenceParseMode::AccessorFallbackValue,
                );
                match value {
                    Err(stop) => (Err(stop), st2),
                    Ok(read) => finish_assignment(
                        inp,
                        st2,
                        RstTree::VarGet(path, Some(read.tree)),
                        read.end,
                    ),
                }
            },
            RantToken::Equals => {
                let (value, st2) = read_sequence(
                    inp,
                    skip(inp, st1),
                    SequenceParseMode::VariableAssignment,
                );
                match value {
                    Err(stop) => (Err(stop), st2),
                    Ok(read) => finish_assignment(
                        inp,
                        if path.anonymous() && path.parts.len() == 1 {
                            report(
                                inp,
                                st2,
                                ProblemView::AnonValueAssignment,
                                covering(start, span_here(inp, st2)),
                            )
                        } else {
                            st2
                        },
                        RstTree::VarSet(path, read.tree),
                        read.end,
                    ),
                }
            },
            _ => (Err(ParseStop::SyntaxError), report_unexpected(inp, st1)),
        },
    }
}

/// An accessor whose value ended as `end` says.
pub open spec fn finish_assignment(inp: Input, st: State, accessor: RstTree, end: SequenceEndType)
 -> (Result<(RstTree, bool), ParseStop>, State) {
    let st1 = capture(st, accessor);
    match end {
        SequenceEndType::VariableAssignDelim | SequenceEndType::AccessorFallbackValueToDelim => (
            Ok((accessor, true)),
            st1,
        ),
        SequenceEndType::VariableAccessEnd | SequenceEndType::AccessorFallbackValueToEnd => (
            Ok((accessor, false)),
            st1,
        ),
        _ => (
            Err(ParseStop::SyntaxError),
            report(inp, st1, ProblemView::UnclosedVariableAccess, span_here(inp, st1)),
        ),
    }
}

} // verus!
